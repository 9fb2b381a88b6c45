use vstd::prelude::*;

use crate::context::{bindings_of, Context};
use crate::error::RequestError;
use crate::param::{count_char, parse_param};
use crate::request::{
    canonical_name, check_header_value, distinct_names, insert_header, method_of, name_word_ok,
    parse_header_name, parse_method, parse_version, valid_header_value, version_of, Method,
    Version,
};
use crate::text::{
    chars_of, copy_range, has_open_brace_pair, next_token, string_of, token, trim, trim_chars,
};

verus! {

#[verifier::external_type_specification]
#[verifier::external_body]
pub struct ExUrl(reqwest::Url);

/// Whether `url::Url::parse` accepts the text as an absolute URL.
pub uninterp spec fn url_accepts(s: Seq<char>) -> bool;

/// Relies on `Url::parse`: it succeeds exactly on the texts that it accepts.
#[verifier::external_body]
fn parse_absolute_url(s: &str) -> (r: Option<reqwest::Url>)
    ensures
        r is Some <==> url_accepts(s@),
{
    reqwest::Url::parse(s).ok()
}

/// The section of the description that the parser is in; it never goes back.
#[derive(Debug, Clone, Copy, PartialEq, Eq, Structural)]
pub enum ParserState {
    Base,
    Header,
    Body,
}

/// A request with every template resolved, ready to be sent.
#[derive(Debug)]
pub struct HttpRequest {
    pub method: Method,
    pub url: reqwest::Url,
    /// The URL as rendered, the text that `url` was read from.
    pub url_text: String,
    pub version: Version,
    /// Canonical (lower-case) header names, each once, with their values.
    pub headers: Vec<(String, String)>,
    pub body: Option<String>,
}

/// A line that is neither blank, nor a comment, nor a variable definition.
pub open spec fn is_request_line(l: Seq<char>) -> bool {
    trim(l).len() > 0 && trim(l)[0] != '#' && trim(l)[0] != '@'
}

/// Where the parser stands after reading `lines`, whatever the templates render to: its
/// section, whether the body has ended, and the body's text so far (its lines joined by line
/// breaks, as they stand).
pub open spec fn scan(lines: Seq<String>) -> (ParserState, bool, Option<Seq<char>>)
    decreases lines.len(),
{
    if lines.len() == 0 {
        (ParserState::Base, false, None)
    } else {
        let prev = scan(lines.drop_last());
        let l = lines.last()@;
        if prev.1 {
            prev
        } else {
            match prev.0 {
                ParserState::Base => (
                    if is_request_line(l) {
                        ParserState::Header
                    } else {
                        ParserState::Base
                    },
                    false,
                    None,
                ),
                ParserState::Header => (
                    if trim(l).len() == 0 {
                        ParserState::Body
                    } else {
                        ParserState::Header
                    },
                    false,
                    None,
                ),
                ParserState::Body => if trim(l).len() == 0 {
                    (ParserState::Body, true, prev.2)
                } else {
                    (
                        ParserState::Body,
                        false,
                        Some(
                            match prev.2 {
                                None => l,
                                Some(b) => b + seq!['\n'] + l,
                            },
                        ),
                    )
                },
            }
        }
    }
}

/// The headers that the header lines of `lines` set, each value as its line writes it; a later
/// line for the same name replaces an earlier one.
pub open spec fn scan_headers(lines: Seq<String>) -> Map<Seq<char>, Seq<char>>
    decreases lines.len(),
{
    if lines.len() == 0 {
        Map::empty()
    } else {
        let prev = scan(lines.drop_last());
        let t = trim(lines.last()@);
        let m = scan_headers(lines.drop_last());
        if !prev.1 && prev.0 == ParserState::Header && t.len() > 0 && t[0] != '#' {
            m.insert(canonical_name(token(t, 0).drop_last()), token(t, 1))
        } else {
            m
        }
    }
}

/// No line holds a template in the place of a header value.
pub open spec fn plain_header_values(lines: Seq<String>) -> bool {
    forall|j: int| 0 <= j < lines.len() ==> !has_open_brace_pair(token(trim(#[trigger] lines[j]@), 1))
}

/// The bindings that the definition lines of `lines` leave, from `m`, each definition as its
/// line writes it.
pub open spec fn scan_definitions(
    m: Map<Seq<char>, Seq<char>>,
    lines: Seq<String>,
) -> Map<Seq<char>, Seq<char>>
    decreases lines.len(),
{
    if lines.len() == 0 {
        m
    } else {
        let prev = scan(lines.drop_last());
        let t = trim(lines.last()@);
        let d = scan_definitions(m, lines.drop_last());
        if !prev.1 && prev.0 == ParserState::Base && t.len() > 0 && t[0] == '@' {
            defined(d, definition_name(t), definition_value(t))
        } else {
            d
        }
    }
}

/// Neither the line's text nor its second word (a URL or a header value) holds a template.
pub open spec fn plain_line(l: Seq<char>) -> bool {
    !has_open_brace_pair(trim(l)) && !has_open_brace_pair(token(trim(l), 1))
}

/// The first `n` lines are plain.
pub open spec fn plain_upto(lines: Seq<String>, n: int) -> bool {
    forall|j: int| 0 <= j < n ==> plain_line(#[trigger] lines[j]@)
}

/// Nothing that a parse of `lines` hands to rendering holds a template.
pub open spec fn no_templates(lines: Seq<String>) -> bool {
    &&& plain_upto(lines, lines.len() as int)
    &&& scan(lines).2 is Some ==> !has_open_brace_pair(scan(lines).2.unwrap())
}

/// Line `l`, read in the section that `st` gives, is well formed: a definition holds exactly one
/// `=`, and a header line has a valid name word and a valid value.
pub open spec fn line_well_formed(st: (ParserState, bool, Option<Seq<char>>), l: Seq<char>) -> bool {
    let t = trim(l);
    if st.1 {
        true
    } else {
        match st.0 {
            ParserState::Base => (t.len() > 0 && t[0] == '@') ==> count_char(t, '=') == 1,
            ParserState::Header => (t.len() > 0 && t[0] != '#') ==> (name_word_ok(token(t, 0))
                && valid_header_value(token(t, 1))),
            ParserState::Body => true,
        }
    }
}

/// Every line of `lines` is well formed where the parser reads it.
pub open spec fn lines_well_formed(lines: Seq<String>) -> bool {
    forall|j: int| 0 <= j < lines.len() ==> line_well_formed(scan(lines.take(j)), #[trigger] lines[j]@)
}

/// A request line with a known method, an accepted URL and a known or absent version.
pub open spec fn request_line_ok(l: Seq<char>) -> bool {
    &&& method_of(token(trim(l), 0)) is Some
    &&& url_accepts(token(trim(l), 1))
    &&& version_of(token(trim(l), 2)) is Some
}

proof fn lemma_first_request_line_unique(lines: Seq<String>, a: int, b: int)
    requires
        first_request_line(lines, a),
        first_request_line(lines, b),
    ensures
        a == b,
{
    if a < b {
        assert(!is_request_line(lines[a]@));
    }
    if b < a {
        assert(!is_request_line(lines[b]@));
    }
}

proof fn lemma_scan_stays_done(lines: Seq<String>, i: int, j: int, m: Map<Seq<char>, Seq<char>>)
    requires
        0 <= i <= j <= lines.len(),
        scan(lines.take(i)).1,
    ensures
        scan(lines.take(j)) == scan(lines.take(i)),
        scan_headers(lines.take(j)) == scan_headers(lines.take(i)),
        scan_definitions(m, lines.take(j)) == scan_definitions(m, lines.take(i)),
    decreases j - i,
{
    if j > i {
        lemma_scan_stays_done(lines, i, j - 1, m);
        assert(lines.take(j).drop_last() =~= lines.take(j - 1));
    }
}

/// Line `i` is the first request line of `lines`.
pub open spec fn first_request_line(lines: Seq<String>, i: int) -> bool {
    &&& 0 <= i < lines.len()
    &&& is_request_line(lines[i]@)
    &&& forall|j: int| 0 <= j < i ==> !is_request_line(#[trigger] lines[j]@)
}

pub open spec fn strip_at(s: Seq<char>) -> Seq<char>
    decreases s.len(),
{
    if s.len() > 0 && s[0] == '@' {
        strip_at(s.drop_first())
    } else {
        s
    }
}

/// Where the first `=` of `s` stands (meaningful when `s` holds one).
pub open spec fn eq_index(s: Seq<char>) -> int {
    choose|i: int| 0 <= i < s.len() && s[i] == '=' && !s.take(i).contains('=')
}

/// The name that a definition `@name=value` binds.
pub open spec fn definition_name(s: Seq<char>) -> Seq<char> {
    strip_at(trim(s.take(eq_index(s))))
}

/// The value that a definition `@name=value` binds.
pub open spec fn definition_value(s: Seq<char>) -> Seq<char> {
    trim(s.skip(eq_index(s) + 1))
}

/// The bindings after a definition of `name`: a name that is bound already keeps its value.
pub open spec fn defined(
    m: Map<Seq<char>, Seq<char>>,
    name: Seq<char>,
    value: Seq<char>,
) -> Map<Seq<char>, Seq<char>> {
    if m.contains_key(name) {
        m
    } else {
        m.insert(name, value)
    }
}

/// The first definition of a name wins: defining it again, with any value, changes nothing.
pub proof fn lemma_first_definition_wins(
    m: Map<Seq<char>, Seq<char>>,
    name: Seq<char>,
    first: Seq<char>,
    second: Seq<char>,
)
    ensures
        defined(defined(m, name, first), name, second) == defined(m, name, first),
        !m.contains_key(name) ==> defined(defined(m, name, first), name, second)[name] == first,
{
}

proof fn lemma_eq_index(s: Seq<char>, p: int)
    requires
        0 <= p < s.len(),
        s[p] == '=',
        !s.take(p).contains('='),
    ensures
        eq_index(s) == p,
{
    let i = eq_index(s);
    assert(0 <= i < s.len() && s[i] == '=' && !s.take(i).contains('='));
    if i < p {
        assert(s.take(p)[i] == '=');
    }
    if p < i {
        assert(s.take(i)[p] == '=');
    }
}

fn strip_at_chars(s: &Vec<char>) -> (r: Vec<char>)
    ensures
        r@ == strip_at(s@),
{
    let n = s.len();
    let mut i: usize = 0;
    assert(s@.subrange(0, n as int) =~= s@);
    while i < n && s[i] == '@'
        invariant
            i <= n == s.len(),
            strip_at(s@.subrange(i as int, n as int)) == strip_at(s@),
        decreases n - i,
    {
        assert(s@.subrange(i + 1, n as int) =~= s@.subrange(i as int, n as int).drop_first());
        i = i + 1;
    }
    copy_range(s, i, n)
}

/// Applies a rendered definition `@name=value`: binds the name unless it is bound already.
/// A text without exactly one `=` is a parse error.
pub fn define_variable(context: &mut Context, rendered: &str) -> (r: Result<(), RequestError>)
    ensures
        r is Ok <==> count_char(rendered@, '=') == 1,
        r is Err ==> (r.unwrap_err().is_parse() && final(context)@ == old(context)@),
        forall|n: Seq<char>|
            #[trigger] old(context)@.contains_key(n) ==> final(context)@.contains_key(n)
                && final(context)@[n] == old(context)@[n],
        r is Ok ==> final(context)@ == defined(
            old(context)@,
            definition_name(rendered@),
            definition_value(rendered@),
        ),
{
    let kv = match parse_param(rendered) {
        Ok(kv) => kv,
        Err(e) => return Err(e),
    };
    let ghost p = kv.0@.len() as int;
    proof {
        let s = rendered@;
        assert(s =~= kv.0@ + seq!['='] + kv.1@);
        assert(s[p] == '=');
        assert(s.take(p) =~= kv.0@);
        lemma_eq_index(s, p);
        assert(s.skip(p + 1) =~= kv.1@);
    }
    let key = strip_at_chars(&trim_chars(&chars_of(kv.0.as_str())));
    let value = trim_chars(&chars_of(kv.1.as_str()));
    let key_s = string_of(key.as_slice());
    let value_s = string_of(value.as_slice());
    if !context.contains(key_s.as_str()) {
        context.variable(key_s.as_str(), value_s.as_str());
    }
    Ok(())
}

/// Renders and applies a definition line.
pub fn parse_variable(context: &mut Context, line: &str) -> (r: Result<(), RequestError>)
    ensures
        !has_open_brace_pair(line@) ==> {
            &&& (r is Ok <==> count_char(line@, '=') == 1)
            &&& r is Ok ==> final(context)@ == defined(
                old(context)@,
                definition_name(line@),
                definition_value(line@),
            )
        },
        r is Err ==> final(context)@ == old(context)@,
        (!has_open_brace_pair(line@) && r is Err) ==> r.unwrap_err().is_parse(),
        forall|n: Seq<char>|
            #[trigger] old(context)@.contains_key(n) ==> final(context)@.contains_key(n)
                && final(context)@[n] == old(context)@[n],
{
    let rendered = match context.render(line) {
        Ok(t) => t,
        Err(e) => return Err(e),
    };
    define_variable(context, rendered.as_str())
}

/// Renders the URL word and reads the result as an absolute URL; gives the URL and its text.
pub fn parse_url(context: &Context, word: &str) -> (r: Result<(reqwest::Url, String), RequestError>)
    ensures
        !has_open_brace_pair(word@) ==> (r is Ok <==> url_accepts(word@)),
        (!has_open_brace_pair(word@) && r is Err) ==> r.unwrap_err().is_parse(),
        r is Ok ==> url_accepts(r.unwrap().1@),
        (r is Ok && !has_open_brace_pair(word@)) ==> r.unwrap().1@ == word@,
{
    let rendered = match context.render(word) {
        Ok(u) => u,
        Err(e) => return Err(e),
    };
    match parse_absolute_url(rendered.as_str()) {
        Some(u) => Ok((u, rendered)),
        None => Err(RequestError::Parse(rendered)),
    }
}

/// Reads a request line: its method, its (rendered) URL and its version.
pub fn parse_request_line(context: &Context, t: &Vec<char>) -> (r: Result<
    (Method, reqwest::Url, String, Version),
    RequestError,
>)
    ensures
        method_of(token(t@, 0)) is None ==> (r is Err && r.unwrap_err().is_parse()),
        r is Ok ==> method_of(token(t@, 0)) == Some(r.unwrap().0),
        r is Ok ==> version_of(token(t@, 2)) == Some(r.unwrap().3),
        r is Ok ==> url_accepts(r.unwrap().2@),
        (r is Ok && !has_open_brace_pair(token(t@, 1))) ==> r.unwrap().2@ == token(t@, 1),
        (method_of(token(t@, 0)) is Some && !has_open_brace_pair(token(t@, 1)) && url_accepts(
            token(t@, 1),
        )) ==> (r is Ok <==> version_of(token(t@, 2)) is Some),
        (!has_open_brace_pair(token(t@, 1)) && r is Err) ==> r.unwrap_err().is_parse(),
        (!has_open_brace_pair(token(t@, 1)) && r is Ok) ==> url_accepts(token(t@, 1)),
{
    let n = t.len();
    let (a0, b0) = next_token(t, 0);
    let (a1, b1) = next_token(t, b0);
    let (a2, b2) = next_token(t, b1);
    proof {
        assert(t@.subrange(0, n as int) =~= t@);
        reveal_with_fuel(token, 3);
        assert(token(t@, 0) == t@.subrange(a0 as int, b0 as int));
        assert(token(t@, 1) == t@.subrange(a1 as int, b1 as int));
        assert(token(t@, 2) == t@.subrange(a2 as int, b2 as int));
    }
    let method = match parse_method(&copy_range(t, a0, b0)) {
        Ok(m) => m,
        Err(e) => return Err(e),
    };
    let url_text = string_of(copy_range(t, a1, b1).as_slice());
    let (url, rendered) = match parse_url(context, url_text.as_str()) {
        Ok(u) => u,
        Err(e) => return Err(e),
    };
    let version = match parse_version(&copy_range(t, a2, b2)) {
        Ok(v) => v,
        Err(e) => return Err(e),
    };
    Ok((method, url, rendered, version))
}

/// Builds a header from its name word and its already rendered value.
pub fn header_entry(name_word: &Vec<char>, value: String) -> (r: Result<(String, String), RequestError>)
    ensures
        r is Ok <==> (name_word_ok(name_word@) && valid_header_value(value@)),
        r is Ok ==> r.unwrap().0@ == canonical_name(name_word@.drop_last()),
        r is Ok ==> r.unwrap().1@ == value@,
        r is Err ==> r.unwrap_err().is_parse(),
{
    let name = match parse_header_name(name_word) {
        Ok(n) => n,
        Err(e) => return Err(e),
    };
    if !check_header_value(&chars_of(value.as_str())) {
        return Err(RequestError::Parse(value));
    }
    Ok((name, value))
}

/// Reads a header line: a name word ending in a colon and a value word, which is rendered.
pub fn parse_header(context: &Context, t: &Vec<char>) -> (r: Result<(String, String), RequestError>)
    ensures
        r is Ok ==> name_word_ok(token(t@, 0)),
        r is Ok ==> r.unwrap().0@ == canonical_name(token(t@, 0).drop_last()),
        !has_open_brace_pair(token(t@, 1)) ==> (r is Ok <==> (name_word_ok(token(t@, 0))
            && valid_header_value(token(t@, 1)))),
        (!has_open_brace_pair(token(t@, 1)) && r is Ok) ==> r.unwrap().1@ == token(t@, 1),
        r is Err && !has_open_brace_pair(token(t@, 1)) ==> r.unwrap_err().is_parse(),
{
    let n = t.len();
    let (a0, b0) = next_token(t, 0);
    let (a1, b1) = next_token(t, b0);
    proof {
        assert(t@.subrange(0, n as int) =~= t@);
        reveal_with_fuel(token, 2);
        assert(token(t@, 0) == t@.subrange(a0 as int, b0 as int));
        assert(token(t@, 1) == t@.subrange(a1 as int, b1 as int));
    }
    let value_text = string_of(copy_range(t, a1, b1).as_slice());
    let rendered = match context.render(value_text.as_str()) {
        Ok(v) => v,
        Err(e) => return Err(e),
    };
    header_entry(&copy_range(t, a0, b0), rendered)
}

fn append_chars(dst: &mut Vec<char>, src: &Vec<char>)
    ensures
        final(dst)@ == old(dst)@ + src@,
{
    let mut i: usize = 0;
    while i < src.len()
        invariant
            i <= src.len(),
            dst@ == old(dst)@ + src@.take(i as int),
        decreases src.len() - i,
    {
        dst.push(src[i]);
        assert(src@.take(i + 1) =~= src@.take(i as int).push(src@[i as int]));
        i = i + 1;
    }
    assert(src@.take(src.len() as int) =~= src@);
}

/// Reads a request description, line by line, into a request with every template resolved.
///
/// Before the request line, blank lines and comments are skipped and `@name=value` lines define
/// variables. The first other line is the request line. Header lines follow up to a blank line;
/// the lines after it, up to the next blank line, are the body, rendered as one text.
#[verifier::rlimit(100)]
#[verifier::spinoff_prover]
pub fn parse_http_file(context: &mut Context, lines: &Vec<String>) -> (r: Result<
    HttpRequest,
    RequestError,
>)
    ensures
        r is Ok ==> exists|k: int|
            #![trigger first_request_line(lines@, k)]
            first_request_line(lines@, k) && method_of(token(trim(lines@[k]@), 0)) == Some(
                r.unwrap().method,
            ) && version_of(token(trim(lines@[k]@), 2)) == Some(r.unwrap().version) && (
            !has_open_brace_pair(token(trim(lines@[k]@), 1)) ==> r.unwrap().url_text@ == token(
                trim(lines@[k]@),
                1,
            )),
        r is Ok ==> url_accepts(r.unwrap().url_text@),
        success_owed(lines@) ==> r is Ok,
        (r is Err && no_templates(lines@)) ==> r.unwrap_err().is_parse(),
        (forall|k: int| 0 <= k < lines@.len() ==> !is_request_line(#[trigger] lines@[k]@)) ==> r is Err,
        (exists|k: int|
            first_request_line(lines@, k) && !request_line_ok(#[trigger] lines@[k]@) && plain_line(
                lines@[k]@,
            )) ==> r is Err,
        (exists|j: int|
            0 <= j < lines@.len() && !line_well_formed(scan(lines@.take(j)), #[trigger] lines@[j]@)
                && plain_line(lines@[j]@)) ==> r is Err,
        r is Ok ==> distinct_names(r.unwrap().headers@),
        r is Ok ==> bindings_of(r.unwrap().headers@).dom() == scan_headers(lines@).dom(),
        (r is Ok && plain_header_values(lines@)) ==> bindings_of(r.unwrap().headers@)
            == scan_headers(lines@),
        r is Ok ==> (r.unwrap().body is Some <==> scan(lines@).2 is Some),
        (r is Ok && scan(lines@).2 is Some && !has_open_brace_pair(scan(lines@).2.unwrap())) ==> r.unwrap().body.unwrap()@
            == scan(lines@).2.unwrap(),
        forall|n: Seq<char>|
            #[trigger] old(context)@.contains_key(n) ==> final(context)@.contains_key(n)
                && final(context)@[n] == old(context)@[n],
        (r is Ok && plain_upto(lines@, lines@.len() as int)) ==> final(context)@ == scan_definitions(
            old(context)@,
            lines@,
        ),
{
    let sections = match read_sections(context, lines) {
        Ok(sc) => sc,
        Err(e) => return Err(e),
    };
    let Sections { request_line, at, headers, body, has_body } = sections;
    let (method, url, url_text, version) = match request_line {
        Some(rl) => rl,
        None => {
            proof {
                reveal(success_owed);
                if exists|k: int| first_request_line(lines@, k) {
                    let k = choose|k: int| first_request_line(lines@, k);
                    assert(is_request_line(lines@[k]@));
                }
            }
            return Err(RequestError::Parse("no request line".to_string()));
        },
    };
    proof {
        reveal(request_line_read);
        assert forall|k: int| first_request_line(lines@, k) implies k == at@ by {
            lemma_first_request_line_unique(lines@, k, at@);
        }
    }
    let body = if has_body {
        let text = string_of(body.as_slice());
        match context.render(text.as_str()) {
            Ok(b) => Some(b),
            Err(e) => {
                proof {
                    reveal(success_owed);
                    assert(has_open_brace_pair(scan(lines@).2.unwrap()));
                }
                return Err(e);
            },
        }
    } else {
        None
    };
    proof {
        assert(first_request_line(lines@, at@));
    }
    Ok(HttpRequest { method, url, url_text, version, headers, body })
}

/// The sections of a description as the parser reads them, before the body is rendered.
struct Sections {
    request_line: Option<(Method, reqwest::Url, String, Version)>,
    at: Ghost<int>,
    headers: Vec<(String, String)>,
    body: Vec<char>,
    has_body: bool,
}

/// The parse of `lines` owes success: nothing is templated, every line is well formed, and
/// the first request line names a known method, an accepted URL and a known or absent version.
#[verifier::opaque]
pub open spec fn success_owed(lines: Seq<String>) -> bool {
    &&& no_templates(lines)
    &&& lines_well_formed(lines)
    &&& exists|k: int| first_request_line(lines, k) && request_line_ok(#[trigger] lines[k]@)
}

/// Line `at` is the first request line, and `rl` is what it gives: its method, its URL and
/// the URL's rendered text, and its version.
#[verifier::opaque]
pub open spec fn request_line_read(
    lines: Seq<String>,
    at: int,
    rl: (Method, reqwest::Url, String, Version),
) -> bool {
    &&& first_request_line(lines, at)
    &&& method_of(token(trim(lines[at]@), 0)) == Some(rl.0)
    &&& version_of(token(trim(lines[at]@), 2)) == Some(rl.3)
    &&& url_accepts(rl.2@)
    &&& !has_open_brace_pair(token(trim(lines[at]@), 1)) ==> rl.2@ == token(trim(lines[at]@), 1)
}

spec fn sections_read(
    lines: Seq<String>,
    sc: Sections,
    before: Map<Seq<char>, Seq<char>>,
    after: Map<Seq<char>, Seq<char>>,
) -> bool {
    &&& sc.request_line is None ==> forall|j: int|
        0 <= j < lines.len() ==> !is_request_line(#[trigger] lines[j]@)
    &&& sc.request_line is Some ==> request_line_read(lines, sc.at@, sc.request_line.unwrap())
    &&& distinct_names(sc.headers@)
    &&& sc.has_body <==> scan(lines).2 is Some
    &&& sc.has_body ==> sc.body@ == scan(lines).2.unwrap()
    &&& plain_header_values(lines) ==> bindings_of(sc.headers@) == scan_headers(lines)
    &&& bindings_of(sc.headers@).dom() == scan_headers(lines).dom()
    &&& forall|j: int|
        0 <= j < lines.len() ==> (line_well_formed(scan(lines.take(j)), #[trigger] lines[j]@)
            || !plain_line(lines[j]@))
    &&& plain_upto(lines, lines.len() as int) ==> after == scan_definitions(before, lines)
}

proof fn lemma_sections_end(lines: Seq<String>, i: int, done: bool, m: Map<Seq<char>, Seq<char>>)
    requires
        0 <= i <= lines.len(),
        done || i == lines.len(),
        scan(lines.take(i)).1 == done,
        forall|j: int|
            0 <= j < i ==> (line_well_formed(scan(lines.take(j)), #[trigger] lines[j]@)
                || !plain_line(lines[j]@)),
    ensures
        scan(lines) == scan(lines.take(i)),
        scan_headers(lines) == scan_headers(lines.take(i)),
        scan_definitions(m, lines) == scan_definitions(m, lines.take(i)),
        plain_header_values(lines) ==> plain_header_values(lines.take(i)),
        forall|j: int|
            0 <= j < lines.len() ==> (line_well_formed(scan(lines.take(j)), #[trigger] lines[j]@)
                || !plain_line(lines[j]@)),
{
    assert(lines.take(lines.len() as int) =~= lines);
    if done {
        lemma_scan_stays_done(lines, i, lines.len() as int, m);
        assert forall|j: int| i <= j < lines.len() implies line_well_formed(
            scan(lines.take(j)),
            #[trigger] lines[j]@,
        ) by {
            lemma_scan_stays_done(lines, i, j, m);
        }
    }
    if plain_header_values(lines) {
        assert forall|j: int| 0 <= j < i implies !has_open_brace_pair(
            token(trim(#[trigger] lines.take(i)[j]@), 1),
        ) by {
            assert(lines.take(i)[j] == lines[j]);
        }
    }
}

/// Reads the lines up to the end of the body: definitions, the request line and the headers.
#[verifier::rlimit(100)]
#[verifier::spinoff_prover]
fn read_sections(context: &mut Context, lines: &Vec<String>) -> (r: Result<Sections, RequestError>)
    ensures
        r is Err ==> (no_templates(lines@) ==> r->Err_0.is_parse()),
        r is Err ==> !success_owed(lines@),
        forall|n: Seq<char>|
            #[trigger] old(context)@.contains_key(n) ==> final(context)@.contains_key(n)
                && final(context)@[n] == old(context)@[n],
        r is Ok ==> sections_read(lines@, r.unwrap(), old(context)@, final(context)@),
{
    let ghost init = context@;

    let mut state = ParserState::Base;
    let mut request_line: Option<(Method, reqwest::Url, String, Version)> = None;
    let mut headers: Vec<(String, String)> = Vec::new();
    let mut body: Vec<char> = Vec::new();
    let mut has_body = false;
    let mut done = false;
    let ghost mut at: int = 0;
    let mut i: usize = 0;
    while i < lines.len() && !done
        invariant
            i <= lines@.len(),
            (state == ParserState::Base) <==> request_line is None,
            state == ParserState::Base ==> forall|j: int|
                0 <= j < i ==> !is_request_line(#[trigger] lines@[j]@),
            request_line is Some ==> at < i && request_line_read(lines@, at, request_line.unwrap()),
            distinct_names(headers@),
            scan(lines@.take(i as int)).0 == state,
            scan(lines@.take(i as int)).1 == done,
            has_body <==> scan(lines@.take(i as int)).2 is Some,
            has_body ==> body@ == scan(lines@.take(i as int)).2.unwrap(),
            !has_body ==> body@.len() == 0,
            plain_header_values(lines@.take(i as int)) ==> bindings_of(headers@) == scan_headers(
                lines@.take(i as int),
            ),
            bindings_of(headers@).dom() == scan_headers(lines@.take(i as int)).dom(),
            forall|j: int|
                0 <= j < i ==> (line_well_formed(scan(lines@.take(j)), #[trigger] lines@[j]@)
                    || !plain_line(lines@[j]@)),
            forall|n: Seq<char>|
                #[trigger] init.contains_key(n) ==> context@.contains_key(n) && context@[n]
                    == init[n],
            plain_upto(lines@, i as int) ==> context@ == scan_definitions(init, lines@.take(i as int)),
            init == old(context)@,
            done ==> state == ParserState::Body,
        decreases lines@.len() - i,
    {
        assert(lines@.take(i + 1).drop_last() =~= lines@.take(i as int));
        assert(lines@.take(i + 1).last() == lines@[i as int]);
        let ghost ctx_before = context@;
        let ghost hdr_before = headers@;
        let cs = chars_of(lines[i].as_str());
        let t = trim_chars(&cs);
        let blank = t.len() == 0;
        match state {
            ParserState::Base => {
                if blank || t[0] == '#' {
                } else if t[0] == '@' {
                    match parse_variable(context, string_of(t.as_slice()).as_str()) {
                        Ok(()) => {},
                        Err(e) => {
                            proof {
                                if no_templates(lines@) {
                                    assert(plain_line(lines@[i as int]@));
                                }
                                assert(!success_owed(lines@)) by {
                                    reveal(success_owed);
                                    if success_owed(lines@) {
                                        assert(plain_line(lines@[i as int]@));
                                        assert(line_well_formed(
                                            scan(lines@.take(i as int)),
                                            lines@[i as int]@,
                                        ));
                                    }
                                }
                            }
                            return Err(e);
                        },
                    }
                } else {
                    match parse_request_line(context, &t) {
                        Ok(rl) => {
                            request_line = Some(rl);
                        },
                        Err(e) => {
                            proof {
                                assert(first_request_line(lines@, i as int));
                                if no_templates(lines@) {
                                    assert(plain_line(lines@[i as int]@));
                                }
                                assert(!success_owed(lines@)) by {
                                    reveal(success_owed);
                                    if success_owed(lines@) {
                                        assert(plain_line(lines@[i as int]@));
                                        let k = choose|k: int|
                                            first_request_line(lines@, k) && request_line_ok(
                                                #[trigger] lines@[k]@,
                                            );
                                        lemma_first_request_line_unique(lines@, k, i as int);
                                    }
                                }
                            }
                            return Err(e);
                        },
                    }
                    proof {
                        at = i as int;
                        assert(first_request_line(lines@, at));
                        reveal(request_line_read);
                    }
                    state = ParserState::Header;
                }
            },
            ParserState::Header => {
                if blank {
                    state = ParserState::Body;
                } else if t[0] != '#' {
                    match parse_header(context, &t) {
                        Ok((name, value)) => insert_header(&mut headers, name, value),
                        Err(e) => {
                            proof {
                                if no_templates(lines@) {
                                    assert(plain_line(lines@[i as int]@));
                                }
                                assert(!success_owed(lines@)) by {
                                    reveal(success_owed);
                                    if success_owed(lines@) {
                                        assert(plain_line(lines@[i as int]@));
                                        assert(line_well_formed(
                                            scan(lines@.take(i as int)),
                                            lines@[i as int]@,
                                        ));
                                    }
                                }
                            }
                            return Err(e);
                        },
                    }
                }
                proof {
                    if !blank && t@[0] != '#' {
                        assert(bindings_of(headers@).dom() =~= scan_headers(lines@.take(i + 1)).dom());
                    }
                    if plain_header_values(lines@.take(i + 1)) {
                        assert forall|j: int| 0 <= j < i implies !has_open_brace_pair(
                            token(trim(#[trigger] lines@.take(i as int)[j]@), 1),
                        ) by {
                            assert(lines@.take(i as int)[j] == lines@.take(i + 1)[j]);
                        }
                    }
                }
            },
            ParserState::Body => {
                if blank {
                    done = true;
                } else {
                    let ghost before = body@;
                    if has_body {
                        body.push('\n');
                    }
                    append_chars(&mut body, &cs);
                    proof {
                        if has_body {
                            assert(body@ =~= before + seq!['\n'] + lines@[i as int]@);
                        } else {
                            assert(body@ =~= lines@[i as int]@);
                        }
                    }
                    has_body = true;
                }
            },
        }
        proof {
            if state != ParserState::Header || blank || t@[0] == '#' {
                assert(headers@ == hdr_before);
            }
            if plain_header_values(lines@.take(i + 1)) && !(state == ParserState::Header) {
                assert forall|j: int| 0 <= j < i implies !has_open_brace_pair(
                    token(trim(#[trigger] lines@.take(i as int)[j]@), 1),
                ) by {
                    assert(lines@.take(i as int)[j] == lines@.take(i + 1)[j]);
                }
            }
        }
        i = i + 1;
    }
    proof {
        lemma_sections_end(lines@, i as int, done, init);
    }
    Ok(Sections { request_line, at: Ghost(at), headers, body, has_body })
}

} // verus!
