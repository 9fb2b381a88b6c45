use vstd::prelude::*;

verus! {

/// Unicode `White_Space`, the set that `str::trim` removes.
pub open spec fn is_space(c: char) -> bool {
    let u = c as u32;
    (9 <= u && u <= 13) || u == 32 || u == 0x85 || u == 0xa0 || u == 0x1680 || (0x2000 <= u && u
        <= 0x200a) || u == 0x2028 || u == 0x2029 || u == 0x202f || u == 0x205f || u == 0x3000
}

/// ASCII whitespace, the separator of `str::split_ascii_whitespace`.
pub open spec fn is_ascii_space(c: char) -> bool {
    c == ' ' || c == '\t' || c == '\n' || c == '\x0C' || c == '\r'
}

pub open spec fn trim_start(s: Seq<char>) -> Seq<char>
    decreases s.len(),
{
    if s.len() > 0 && is_space(s[0]) {
        trim_start(s.drop_first())
    } else {
        s
    }
}

pub open spec fn trim_end(s: Seq<char>) -> Seq<char>
    decreases s.len(),
{
    if s.len() > 0 && is_space(s.last()) {
        trim_end(s.drop_last())
    } else {
        s
    }
}

/// The text without leading and trailing whitespace.
pub open spec fn trim(s: Seq<char>) -> Seq<char> {
    trim_end(trim_start(s))
}

pub open spec fn skip_ascii_space(s: Seq<char>) -> Seq<char>
    decreases s.len(),
{
    if s.len() > 0 && is_ascii_space(s[0]) {
        skip_ascii_space(s.drop_first())
    } else {
        s
    }
}

pub open spec fn word_len(s: Seq<char>) -> nat
    decreases s.len(),
{
    if s.len() > 0 && !is_ascii_space(s[0]) {
        1 + word_len(s.drop_first())
    } else {
        0
    }
}

/// The first whitespace-delimited word of `s`; empty when `s` holds none.
pub open spec fn first_token(s: Seq<char>) -> Seq<char> {
    skip_ascii_space(s).take(word_len(skip_ascii_space(s)) as int)
}

/// What follows the first word of `s`.
pub open spec fn after_token(s: Seq<char>) -> Seq<char> {
    skip_ascii_space(s).skip(word_len(skip_ascii_space(s)) as int)
}

/// The word of index `k` in `s`, as `split_ascii_whitespace` yields them; empty past the last.
pub open spec fn token(s: Seq<char>, k: nat) -> Seq<char>
    decreases k,
{
    if k == 0 {
        first_token(s)
    } else {
        token(after_token(s), (k - 1) as nat)
    }
}

pub open spec fn has_open_brace_pair(s: Seq<char>) -> bool {
    exists|i: int| 0 <= i && i + 1 < s.len() && s[i] == '{' && #[trigger] s[i + 1] == '{'
}

pub fn is_space_char(c: char) -> (r: bool)
    ensures
        r == is_space(c),
{
    let u = c as u32;
    (9 <= u && u <= 13) || u == 32 || u == 0x85 || u == 0xa0 || u == 0x1680 || (0x2000 <= u && u
        <= 0x200a) || u == 0x2028 || u == 0x2029 || u == 0x202f || u == 0x205f || u == 0x3000
}

pub fn is_ascii_space_char(c: char) -> (r: bool)
    ensures
        r == is_ascii_space(c),
{
    c == ' ' || c == '\t' || c == '\n' || c == '\x0C' || c == '\r'
}

/// Relies on `str::chars`: the characters of the text, in order.
#[verifier::external_body]
pub(crate) fn chars_of(s: &str) -> (r: Vec<char>)
    ensures
        r@ == s@,
{
    s.chars().collect()
}

/// Relies on `FromIterator<char>` for `String`: the text made of these characters.
#[verifier::external_body]
pub(crate) fn string_of(v: &[char]) -> (r: String)
    ensures
        r@ == v@,
{
    v.iter().collect()
}

pub fn copy_range(s: &Vec<char>, lo: usize, hi: usize) -> (r: Vec<char>)
    requires
        lo <= hi <= s.len(),
    ensures
        r@ == s@.subrange(lo as int, hi as int),
{
    let mut r: Vec<char> = Vec::new();
    let mut i: usize = lo;
    while i < hi
        invariant
            lo <= i <= hi <= s.len(),
            r@ == s@.subrange(lo as int, i as int),
        decreases hi - i,
    {
        r.push(s[i]);
        proof {
            assert(s@.subrange(lo as int, i + 1) =~= s@.subrange(lo as int, i as int).push(s@[i as int]));
        }
        i = i + 1;
    }
    r
}

/// The characters of `s` without leading and trailing whitespace.
pub fn trim_chars(s: &Vec<char>) -> (r: Vec<char>)
    ensures
        r@ == trim(s@),
{
    let n = s.len();
    let mut i: usize = 0;
    assert(s@.subrange(0, n as int) =~= s@);
    while i < n && is_space_char(s[i])
        invariant
            i <= n == s.len(),
            trim_start(s@.subrange(i as int, n as int)) == trim_start(s@),
        decreases n - i,
    {
        assert(s@.subrange(i + 1, n as int) =~= s@.subrange(i as int, n as int).drop_first());
        i = i + 1;
    }
    assert(trim_start(s@) == s@.subrange(i as int, n as int));
    let mut j: usize = n;
    while j > i && is_space_char(s[j - 1])
        invariant
            i <= j <= n == s.len(),
            trim_end(s@.subrange(i as int, j as int)) == trim(s@),
        decreases j,
    {
        assert(s@.subrange(i as int, j - 1) =~= s@.subrange(i as int, j as int).drop_last());
        j = j - 1;
    }
    copy_range(s, i, j)
}

/// The bounds of the first word of `s` at or after `from`, and where it ends.
pub fn next_token(s: &Vec<char>, from: usize) -> (r: (usize, usize))
    requires
        from <= s.len(),
    ensures
        from <= r.0 <= r.1 <= s.len(),
        s@.subrange(r.0 as int, r.1 as int) == first_token(s@.subrange(from as int, s.len() as int)),
        s@.subrange(r.1 as int, s.len() as int) == after_token(
            s@.subrange(from as int, s.len() as int),
        ),
{
    let n = s.len();
    let ghost t = s@.subrange(from as int, n as int);
    let mut i: usize = from;
    while i < n && is_ascii_space_char(s[i])
        invariant
            from <= i <= n == s.len(),
            skip_ascii_space(s@.subrange(i as int, n as int)) == skip_ascii_space(t),
        decreases n - i,
    {
        assert(s@.subrange(i + 1, n as int) =~= s@.subrange(i as int, n as int).drop_first());
        i = i + 1;
    }
    let ghost u = s@.subrange(i as int, n as int);
    assert(skip_ascii_space(u) == u);
    let mut j: usize = i;
    while j < n && !is_ascii_space_char(s[j])
        invariant
            i <= j <= n == s.len(),
            word_len(u) == (j - i) + word_len(s@.subrange(j as int, n as int)),
            forall|k: int| i <= k < j ==> !is_ascii_space(#[trigger] s@[k]),
        decreases n - j,
    {
        assert(s@.subrange(j + 1, n as int) =~= s@.subrange(j as int, n as int).drop_first());
        j = j + 1;
    }
    assert(word_len(u) == j - i);
    assert(u.take((j - i) as int) =~= s@.subrange(i as int, j as int));
    assert(u.skip((j - i) as int) =~= s@.subrange(j as int, n as int));
    (i, j)
}

} // verus!
