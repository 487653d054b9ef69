//! Text helpers over the character view of strings.

use vstd::prelude::*;
use vstd::string::*;

verus! {

/// `text` with a trailing slash, added only where it is missing.
pub open spec fn with_trailing_slash(text: Seq<char>) -> Seq<char> {
    if text.len() > 0 && text.last() == '/' {
        text
    } else {
        text.push('/')
    }
}

/// `text` without its leading copies of `prefix`.
pub open spec fn trim_start(text: Seq<char>, prefix: Seq<char>) -> Seq<char>
    decreases text.len(),
{
    if prefix.len() > 0 && prefix.is_prefix_of(text) {
        trim_start(text.skip(prefix.len() as int), prefix)
    } else {
        text
    }
}

/// Whether one of `prefixes` is a prefix of `text`.
pub open spec fn any_prefix(text: Seq<char>, prefixes: Seq<Seq<char>>) -> bool {
    exists|i: int| 0 <= i < prefixes.len() && (#[trigger] prefixes[i]).is_prefix_of(text)
}

/// The character views of a sequence of strings.
pub open spec fn texts(items: Seq<String>) -> Seq<Seq<char>> {
    items.map_values(|s: String| s@)
}

/// Whether two strings hold the same characters.
pub fn same_text(a: &str, b: &str) -> (same: bool)
    ensures
        same == (a@ == b@),
{
    let x: String = a.to_owned();
    let y: String = b.to_owned();
    x == y
}

/// Whether `text` begins with `prefix`.
pub fn starts_with(text: &str, prefix: &str) -> (found: bool)
    ensures
        found == prefix@.is_prefix_of(text@),
{
    let n: usize = text.unicode_len();
    let m: usize = prefix.unicode_len();
    if m > n {
        false
    } else {
        let head = text.substring_char(0, m);
        let same = same_text(head, prefix);
        proof {
            if same {
                assert(text@.subrange(0, m as int) =~= prefix@);
            } else if prefix@.is_prefix_of(text@) {
                assert(text@.subrange(0, m as int) =~= prefix@);
            }
        }
        same
    }
}

/// Whether `text` ends with `suffix`.
pub fn ends_with(text: &str, suffix: &str) -> (found: bool)
    ensures
        found == suffix@.is_suffix_of(text@),
{
    let n: usize = text.unicode_len();
    let m: usize = suffix.unicode_len();
    if m > n {
        false
    } else {
        let tail = text.substring_char(n - m, n);
        let same = same_text(tail, suffix);
        proof {
            if same {
                assert(text@.subrange(n - m, n as int) =~= suffix@);
            } else if suffix@.is_suffix_of(text@) {
                assert(text@.subrange(n - m, n as int) =~= suffix@);
            }
        }
        same
    }
}

/// Whether `text` begins with one of `prefixes`.
pub fn starts_with_any(text: &str, prefixes: &Vec<String>) -> (found: bool)
    ensures
        found == any_prefix(text@, texts(prefixes@)),
{
    let mut i: usize = 0;
    while i < prefixes.len()
        invariant
            i <= prefixes.len(),
            forall|j: int| 0 <= j < i ==> !(#[trigger] texts(prefixes@)[j]).is_prefix_of(text@),
        decreases prefixes.len() - i,
    {
        if starts_with(text, prefixes[i].as_str()) {
            assert(texts(prefixes@)[i as int] == prefixes@[i as int]@);
            return true;
        }
        assert(texts(prefixes@)[i as int] == prefixes@[i as int]@);
        i += 1;
    }
    false
}

/// Removes every leading copy of `prefix` from `text`.
pub fn strip_leading(text: &str, prefix: &str) -> (rest: String)
    ensures
        rest@ == trim_start(text@, prefix@),
{
    let m: usize = prefix.unicode_len();
    let n: usize = text.unicode_len();
    let mut from: usize = 0;
    assert(text@.subrange(0, n as int) =~= text@);
    if m > 0 {
        while starts_with(text.substring_char(from, n), prefix)
            invariant
                0 < m == prefix@.len(),
                n == text@.len(),
                from <= n,
                trim_start(text@, prefix@) == trim_start(
                    text@.subrange(from as int, n as int),
                    prefix@,
                ),
            decreases n - from,
        {
            proof {
                let cur = text@.subrange(from as int, n as int);
                assert(cur.len() >= m);
                assert(cur.skip(m as int) =~= text@.subrange(from + m, n as int));
            }
            from = from + m;
        }
    }
    String::from_str(text.substring_char(from, n))
}

/// Appends a slash to `path` unless it already ends with one.
pub fn normalize_path(path: String) -> (normal: String)
    ensures
        normal@ == with_trailing_slash(path@),
{
    proof {
        reveal_strlit("/");
    }
    if ends_with(path.as_str(), "/") {
        assert(path@.len() > 0 && path@.last() == '/') by {
            let n = path@.len() as int;
            assert("/"@ =~= path@.subrange(n - 1, n));
            assert(path@.subrange(n - 1, n)[0] == path@[n - 1]);
        }
        path
    } else {
        assert(!(path@.len() > 0 && path@.last() == '/')) by {
            if path@.len() > 0 && path@.last() == '/' {
                let n = path@.len() as int;
                assert("/"@ =~= path@.subrange(n - 1, n));
            }
        }
        let normal = path.concat("/");
        assert(normal@ =~= path@.push('/'));
        normal
    }
}

} // verus!
