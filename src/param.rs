use vstd::prelude::*;

use crate::error::RequestError;
use crate::text::{chars_of, copy_range, string_of};

verus! {

/// A `key=value` pair handed to the run from outside the request description.
#[derive(Debug, Clone)]
pub struct KeyValue(pub String, pub String);

pub open spec fn count_char(s: Seq<char>, c: char) -> nat
    decreases s.len(),
{
    if s.len() == 0 {
        0
    } else {
        count_char(s.drop_last(), c) + if s.last() == c { 1nat } else { 0nat }
    }
}

/// Splits `key=value`; the text must hold exactly one `=`.
pub fn parse_param(s: &str) -> (r: Result<KeyValue, RequestError>)
    ensures
        r is Ok <==> count_char(s@, '=') == 1,
        r matches Ok(kv) ==> kv.0@ + seq!['='] + kv.1@ == s@ && !kv.0@.contains('='),
        r matches Err(e) ==> e.is_parse(),
{
    let cs = chars_of(s);
    let n = cs.len();
    let mut count: usize = 0;
    let mut pos: usize = 0;
    let mut i: usize = 0;
    while i < n
        invariant
            i <= n == cs.len(),
            cs@ == s@,
            count == count_char(cs@.take(i as int), '='),
            count <= i,
            count == 0 ==> !cs@.take(i as int).contains('='),
            count >= 1 ==> pos < i && cs@[pos as int] == '=' && !cs@.take(pos as int).contains('='),
        decreases n - i,
    {
        assert(cs@.take(i + 1).drop_last() =~= cs@.take(i as int));
        if cs[i] == '=' {
            if count == 0 {
                pos = i;
            }
            count = count + 1;
        } else {
            assert(count == 0 ==> !cs@.take(i + 1).contains('=')) by {
                if count == 0 {
                    assert forall|k: int| 0 <= k < i + 1 implies #[trigger] cs@.take(i + 1)[k] != '=' by {
                        if k < i {
                            assert(cs@.take(i as int)[k] == cs@.take(i + 1)[k]);
                        }
                    }
                }
            }
        }
        i = i + 1;
    }
    assert(cs@.take(n as int) =~= cs@);
    if count != 1 {
        return Err(RequestError::Parse(string_of(cs.as_slice())));
    }
    let key = copy_range(&cs, 0, pos);
    let value = copy_range(&cs, pos + 1, n);
    assert(key@ + seq!['='] + value@ =~= cs@);
    assert(key@ =~= cs@.take(pos as int));
    Ok(KeyValue(string_of(key.as_slice()), string_of(value.as_slice())))
}

} // verus!
