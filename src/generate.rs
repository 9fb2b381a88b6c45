use vstd::prelude::*;

use fake::faker::boolean::raw::Boolean;
use fake::faker::internet::raw::Password;
use fake::faker::lorem::raw::{Paragraphs, Sentences, Words};
use fake::{locales, Fake};

use crate::error::RequestError;
use crate::text::{chars_of, string_of};

verus! {

pub open spec fn max_of(a: int, b: int) -> int {
    if a >= b {
        a
    } else {
        b
    }
}

/// Lowest count drawn for a requested `count` with lower bound `min`.
pub open spec fn range_low(count: int, min: int) -> int {
    max_of(count, min)
}

/// One past the highest count drawn for a requested `count` with upper bound `max`.
pub open spec fn range_high(count: int, max: int) -> int {
    max_of(count, max) + 1
}

/// The half-open range of counts to draw from: the bounds, widened to take in `count`.
/// A bound above `usize::MAX - 1` leaves no room for the range's end and is refused.
pub fn count_range(count: usize, min: usize, max: usize) -> (r: Option<(usize, usize)>)
    ensures
        r is None <==> max_of(count as int, max as int) == usize::MAX,
        r is Some ==> r.unwrap().0 == range_low(count as int, min as int),
        r is Some ==> r.unwrap().1 == range_high(count as int, max as int),
{
    let lo = if count >= min {
        count
    } else {
        min
    };
    let top = if count >= max {
        count
    } else {
        max
    };
    if top == usize::MAX {
        None
    } else {
        Some((lo, top + 1))
    }
}

/// The widened range takes in the requested count whenever the count is at least the lower
/// bound, and is exactly `[min, max]` when the count sits on the lower bound.
pub proof fn lemma_count_range_policy(count: int, min: int, max: int)
    ensures
        min <= count ==> range_low(count, min) <= count < range_high(count, max),
        min == count <= max ==> (range_low(count, min) == min && range_high(count, max) == max + 1),
        min <= max ==> range_low(count, min) < range_high(count, max),
{
}

/// Relies on `fake`'s `Dummy<RangeInclusive<i32>>` for `i32`: a value drawn from `[min, max]`.
#[verifier::external_body]
fn draw_i32(min: i32, max: i32) -> (r: i32)
    requires
        min <= max,
    ensures
        min <= r <= max,
{
    (min..=max).fake::<i32>()
}

/// A random integer in `[min, max]`; `max < min` is an error.
pub fn random_int(min: i32, max: i32) -> (r: Result<i32, RequestError>)
    ensures
        r is Ok <==> min <= max,
        r is Ok ==> min <= r.unwrap() <= max,
        r is Err ==> r.unwrap_err().is_template(),
{
    if max < min {
        return Err(RequestError::Template("$randomInt".to_string(), "max is below min".to_string()));
    }
    Ok(draw_i32(min, max))
}

/// Relies on `fake`'s `Words`: a number of lorem words drawn from `[lo, hi)`.
#[verifier::external_body]
fn fake_words(lo: usize, hi: usize) -> (r: Vec<String>)
    requires
        lo < hi,
    ensures
        lo <= r.len() < hi,
{
    Words(locales::EN, lo..hi).fake::<Vec<String>>()
}

/// Relies on `fake`'s `Sentences`: a number of lorem sentences drawn from `[lo, hi)`.
#[verifier::external_body]
fn fake_sentences(lo: usize, hi: usize) -> (r: Vec<String>)
    requires
        lo < hi,
    ensures
        lo <= r.len() < hi,
{
    Sentences(locales::EN, lo..hi).fake::<Vec<String>>()
}

/// Relies on `fake`'s `Paragraphs`: a number of lorem paragraphs drawn from `[lo, hi)`.
#[verifier::external_body]
fn fake_paragraphs(lo: usize, hi: usize) -> (r: Vec<String>)
    requires
        lo < hi,
    ensures
        lo <= r.len() < hi,
{
    Paragraphs(locales::EN, lo..hi).fake::<Vec<String>>()
}

/// The parts, in order, with `sep` between each two.
pub open spec fn joined(parts: Seq<Seq<char>>, sep: Seq<char>) -> Seq<char>
    decreases parts.len(),
{
    if parts.len() == 0 {
        Seq::empty()
    } else if parts.len() == 1 {
        parts[0]
    } else {
        joined(parts.drop_last(), sep) + sep + parts.last()
    }
}

/// `s` with each line break replaced by `sep`.
pub open spec fn replace_breaks(s: Seq<char>, sep: Seq<char>) -> Seq<char>
    decreases s.len(),
{
    if s.len() == 0 {
        Seq::empty()
    } else {
        replace_breaks(s.drop_last(), sep) + if s.last() == '\n' {
            sep
        } else {
            seq![s.last()]
        }
    }
}

/// The text of each part, with its line breaks turned into `sep` where `breaks` asks.
pub open spec fn texts_of(parts: Seq<String>, sep: Seq<char>, breaks: bool) -> Seq<Seq<char>> {
    parts.map_values(
        |p: String|
            if breaks {
                replace_breaks(p@, sep)
            } else {
                p@
            },
    )
}

/// Each text with its line breaks turned into `sep`.
pub open spec fn breaks_replaced(texts: Seq<Seq<char>>, sep: Seq<char>) -> Seq<Seq<char>> {
    texts.map_values(|t: Seq<char>| replace_breaks(t, sep))
}

/// Joins `parts` with `sep`, each line break inside a part turned into `sep` where `breaks` asks.
pub fn join_parts(parts: &Vec<String>, sep: &str, breaks: bool) -> (r: String)
    ensures
        r@ == joined(texts_of(parts@, sep@, breaks), sep@),
{
    let ghost f = |p: String|
        if breaks {
            replace_breaks(p@, sep@)
        } else {
            p@
        };
    let sep_chars = chars_of(sep);
    let mut out: Vec<char> = Vec::new();
    let mut i: usize = 0;
    while i < parts.len()
        invariant
            i <= parts@.len(),
            sep_chars@ == sep@,
            f == (|p: String|
                if breaks {
                    replace_breaks(p@, sep@)
                } else {
                    p@
                }),
            out@ == joined(parts@.take(i as int).map_values(f), sep@),
        decreases parts.len() - i,
    {
        let ghost before = out@;
        if i > 0 {
            let mut k: usize = 0;
            while k < sep_chars.len()
                invariant
                    k <= sep_chars@.len(),
                    out@ == before + sep_chars@.take(k as int),
                decreases sep_chars.len() - k,
            {
                out.push(sep_chars[k]);
                assert(sep_chars@.take(k + 1) =~= sep_chars@.take(k as int).push(sep_chars@[k as int]));
                k = k + 1;
            }
            assert(sep_chars@.take(sep_chars.len() as int) =~= sep_chars@);
        }
        let ghost mid = out@;
        let p = chars_of(parts[i].as_str());
        let mut k: usize = 0;
        while k < p.len()
            invariant
                k <= p@.len(),
                p@ == parts@[i as int]@,
                sep_chars@ == sep@,
                out@ == mid + if breaks {
                    replace_breaks(p@.take(k as int), sep@)
                } else {
                    p@.take(k as int)
                },
            decreases p.len() - k,
        {
            let ghost o = out@;
            assert(p@.take(k + 1).drop_last() =~= p@.take(k as int));
            if breaks && p[k] == '\n' {
                let mut m: usize = 0;
                while m < sep_chars.len()
                    invariant
                        m <= sep_chars@.len(),
                        out@ == o + sep_chars@.take(m as int),
                    decreases sep_chars.len() - m,
                {
                    out.push(sep_chars[m]);
                    assert(sep_chars@.take(m + 1) =~= sep_chars@.take(m as int).push(sep_chars@[m as int]));
                    m = m + 1;
                }
                assert(sep_chars@.take(sep_chars.len() as int) =~= sep_chars@);
            } else {
                out.push(p[k]);
            }
            proof {
                if breaks {
                    assert(out@ =~= mid + replace_breaks(p@.take(k + 1), sep@));
                } else {
                    assert(out@ =~= mid + p@.take(k + 1));
                }
            }
            k = k + 1;
        }
        assert(p@.take(p.len() as int) =~= p@);
        proof {
            let prev = parts@.take(i as int).map_values(f);
            let next = parts@.take(i + 1).map_values(f);
            assert(next.drop_last() =~= prev);
            assert(next.last() == f(parts@[i as int]));
            if i == 0 {
                assert(next.len() == 1);
                assert(out@ =~= joined(next, sep@));
            } else {
                assert(out@ =~= joined(next, sep@));
            }
        }
        i = i + 1;
    }
    assert(parts@.take(parts.len() as int) =~= parts@);
    assert(texts_of(parts@, sep@, breaks) =~= parts@.map_values(f));
    string_of(out.as_slice())
}

/// Checks the bounds of a counted generator and gives the range to draw from.
fn draw_range(name: &str, count: usize, min: usize, max: usize) -> (r: Result<(usize, usize), RequestError>)
    ensures
        r is Ok <==> (min <= max && max_of(count as int, max as int) < usize::MAX),
        r is Ok ==> r.unwrap().0 == range_low(count as int, min as int) && r.unwrap().1 == range_high(
            count as int,
            max as int,
        ),
        r is Ok ==> r.unwrap().0 < r.unwrap().1,
        r is Err ==> r.unwrap_err().is_template(),
{
    if max < min {
        return Err(RequestError::Template(name.to_string(), "max is below min".to_string()));
    }
    match count_range(count, min, max) {
        Some(p) => Ok(p),
        None => Err(RequestError::Template(name.to_string(), "count is too large".to_string())),
    }
}

/// Random lorem words, as many as drawn from the widened `[min, max]` range, joined by `sep`.
pub fn random_words(count: usize, min: usize, max: usize, sep: &str) -> (r: Result<String, RequestError>)
    ensures
        r is Ok <==> (min <= max && max_of(count as int, max as int) < usize::MAX),
        r is Ok ==> exists|ws: Seq<Seq<char>>|
            range_low(count as int, min as int) <= ws.len() < range_high(count as int, max as int)
                && #[trigger] joined(ws, sep@) == r.unwrap()@,
        r is Err ==> r.unwrap_err().is_template(),
{
    let (lo, hi) = match draw_range("$randomWord", count, min, max) {
        Ok(p) => p,
        Err(e) => return Err(e),
    };
    let ws = fake_words(lo, hi);
    let text = join_parts(&ws, sep, false);
    assert(texts_of(ws@, sep@, false).len() == ws@.len());
    Ok(text)
}

/// Random lorem sentences, as many as drawn from the widened `[min, max]` range, joined by `sep`.
pub fn random_sentences(count: usize, min: usize, max: usize, sep: &str) -> (r: Result<String, RequestError>)
    ensures
        r is Ok <==> (min <= max && max_of(count as int, max as int) < usize::MAX),
        r is Ok ==> exists|ws: Seq<Seq<char>>|
            range_low(count as int, min as int) <= ws.len() < range_high(count as int, max as int)
                && #[trigger] joined(ws, sep@) == r.unwrap()@,
        r is Err ==> r.unwrap_err().is_template(),
{
    let (lo, hi) = match draw_range("$randomSentence", count, min, max) {
        Ok(p) => p,
        Err(e) => return Err(e),
    };
    let ws = fake_sentences(lo, hi);
    let text = join_parts(&ws, sep, false);
    assert(texts_of(ws@, sep@, false).len() == ws@.len());
    Ok(text)
}

/// Random lorem paragraphs, as many as drawn from the widened `[min, max]` range; `sep` stands
/// between them and for each line break inside them.
pub fn random_paragraphs(count: usize, min: usize, max: usize, sep: &str) -> (r: Result<String, RequestError>)
    ensures
        r is Ok <==> (min <= max && max_of(count as int, max as int) < usize::MAX),
        r is Ok ==> exists|ps: Seq<Seq<char>>|
            range_low(count as int, min as int) <= ps.len() < range_high(count as int, max as int)
                && #[trigger] joined(breaks_replaced(ps, sep@), sep@) == r.unwrap()@,
        r is Err ==> r.unwrap_err().is_template(),
{
    let (lo, hi) = match draw_range("$randomParagraph", count, min, max) {
        Ok(p) => p,
        Err(e) => return Err(e),
    };
    let ws = fake_paragraphs(lo, hi);
    let text = join_parts(&ws, sep, true);
    proof {
        let ps = ws@.map_values(|p: String| p@);
        assert(texts_of(ws@, sep@, true) =~= breaks_replaced(ps, sep@));
        assert(ps.len() == ws@.len());
    }
    Ok(text)
}

/// Relies on `fake`'s `Boolean`: true when a draw from `[0, 100)` falls below `ratio`.
#[verifier::external_body]
fn fake_boolean(ratio: u8) -> (r: bool)
    ensures
        ratio == 0 ==> !r,
        ratio >= 100 ==> r,
{
    Boolean(locales::EN, ratio).fake::<bool>()
}

/// A random boolean that is true with `ratio` percent; a ratio above 100 is an error.
pub fn random_boolean(ratio: u8) -> (r: Result<bool, RequestError>)
    ensures
        r is Ok <==> ratio <= 100,
        ratio == 0 ==> r == Ok::<bool, RequestError>(false),
        ratio == 100 ==> r == Ok::<bool, RequestError>(true),
        r is Err ==> r.unwrap_err().is_template(),
{
    if ratio > 100 {
        return Err(RequestError::Template("$randomBoolean".to_string(), "ratio is above 100".to_string()));
    }
    Ok(fake_boolean(ratio))
}

/// Relies on `fake`'s `Password`: as many characters as drawn from `[lo, hi)`.
#[verifier::external_body]
fn fake_password(lo: usize, hi: usize) -> (r: String)
    requires
        lo < hi,
    ensures
        lo <= r@.len() < hi,
{
    Password(locales::EN, lo..hi).fake::<String>()
}

/// A random password of `min` to `max` characters; `max < min` is an error.
pub fn random_password(min: usize, max: usize) -> (r: Result<String, RequestError>)
    ensures
        r is Ok <==> (min <= max && max < usize::MAX),
        r is Ok ==> min <= r.unwrap()@.len() <= max,
        r is Err ==> r.unwrap_err().is_template(),
{
    if max < min || max == usize::MAX {
        return Err(RequestError::Template("$randomPassword".to_string(), "max is below min".to_string()));
    }
    Ok(fake_password(min, max + 1))
}

} // verus!
