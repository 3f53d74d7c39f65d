use vstd::prelude::*;
use vstd::string::*;

verus! {

/// What `str::to_uppercase` makes of a string of characters.
pub uninterp spec fn upper_of(s: Seq<char>) -> Seq<char>;

/// The quoted form that `str`'s `Debug` impl writes for a string of characters.
pub uninterp spec fn quoted_of(s: Seq<char>) -> Seq<char>;

/// Every character of `s` is ASCII.
pub open spec fn all_ascii(s: Seq<char>) -> bool {
    forall|i: int| 0 <= i < s.len() ==> (s[i] as u32) < 128
}

/// `c` has Unicode's White_Space property, the one that `char::is_whitespace`
/// tests.
pub open spec fn is_space(c: char) -> bool {
    let u = c as u32;
    (0x9 <= u <= 0xD) || u == 0x20 || u == 0x85 || u == 0xA0 || u == 0x1680 || (0x2000 <= u
        <= 0x200A) || u == 0x2028 || u == 0x2029 || u == 0x202F || u == 0x205F || u == 0x3000
}

/// `s` without the whitespace at its start.
pub open spec fn trim_start(s: Seq<char>) -> Seq<char>
    decreases s.len(),
{
    if s.len() > 0 && is_space(s[0]) {
        trim_start(s.drop_first())
    } else {
        s
    }
}

/// `s` without the whitespace at its end.
pub open spec fn trim_end(s: Seq<char>) -> Seq<char>
    decreases s.len(),
{
    if s.len() > 0 && is_space(s.last()) {
        trim_end(s.drop_last())
    } else {
        s
    }
}

/// `s` without the whitespace at either end.
pub open spec fn trimmed(s: Seq<char>) -> Seq<char> {
    trim_end(trim_start(s))
}

/// `c` is printable ASCII that `Debug` writes as it is: no quote, no backslash.
pub open spec fn plain_char(c: char) -> bool {
    0x20 <= (c as u32) <= 0x7E && c != '"' && c != '\\'
}

/// Where `s` is ASCII, `u` is `s` with `a`-`z` mapped to `A`-`Z` and every
/// other character kept.
pub open spec fn upper_on_ascii(s: Seq<char>, u: Seq<char>) -> bool {
    all_ascii(s) ==> u.len() == s.len() && forall|i: int|
        0 <= i < s.len() ==> (u[i] as int) == if 97 <= (s[i] as u32) <= 122 {
            (s[i] as int) - 32
        } else {
            s[i] as int
        }
}

/// Where every character of `s` is plain, `q` is `s` between two `"`.
pub open spec fn quoted_on_plain(s: Seq<char>, q: Seq<char>) -> bool {
    (forall|i: int| 0 <= i < s.len() ==> plain_char(s[i])) ==> q == seq!['"'] + s + seq!['"']
}

/// Relies on `str::to_uppercase`: the result depends on the characters alone,
/// and on ASCII it maps `a`-`z` to `A`-`Z` and keeps every other character.
#[verifier::external_body]
pub(crate) fn to_upper(s: &str) -> (r: String)
    ensures
        r@ == upper_of(s@),
        upper_on_ascii(s@, r@),
{
    s.to_uppercase()
}

/// Relies on `str::trim`: the leading and trailing characters with Unicode's
/// White_Space property are taken off, and nothing else.
#[verifier::external_body]
pub(crate) fn trim(s: &str) -> (r: &str)
    ensures
        r@ == trimmed(s@),
{
    s.trim()
}

/// Relies on `str`'s `Debug` impl: the quoted, escaped form of the characters;
/// printable ASCII other than `"` and `\` is written as it is.
#[verifier::external_body]
pub(crate) fn quote(s: &str) -> (r: String)
    ensures
        r@ == quoted_of(s@),
        quoted_on_plain(s@, r@),
{
    format!("{:?}", s)
}

/// `i` is the first position of `d` in `s`.
pub open spec fn first_at(s: Seq<char>, d: char, i: int) -> bool {
    &&& 0 <= i < s.len()
    &&& s[i] == d
    &&& forall|j: int| 0 <= j < i ==> s[j] != d
}

/// The first position of `d` in `s`, or -1 where `d` does not occur.
pub open spec fn find(s: Seq<char>, d: char) -> int {
    if exists|i: int| first_at(s, d, i) {
        choose|i: int| first_at(s, d, i)
    } else {
        -1
    }
}

/// `s` cut once at its first `d`: what stands before, and what follows where
/// that is not empty.
pub open spec fn split_once(s: Seq<char>, d: char) -> (Seq<char>, Option<Seq<char>>) {
    let k = find(s, d);
    if k < 0 {
        (s, None)
    } else if k + 1 == s.len() {
        (s.take(k), None)
    } else {
        (s.take(k), Some(s.skip(k + 1)))
    }
}

/// `s` cut at every `d`; empty pieces are kept.
pub open spec fn split_all(s: Seq<char>, d: char) -> Seq<Seq<char>>
    decreases s.len(),
{
    let k = find(s, d);
    if 0 <= k < s.len() {
        seq![s.take(k)].add(split_all(s.skip(k + 1), d))
    } else {
        seq![s]
    }
}

/// The first position of `d` in `s`, as `find` gives it.
pub(crate) fn find_char(s: &str, d: char) -> (r: Option<usize>)
    ensures
        match r {
            Some(i) => find(s@, d) == i as int && first_at(s@, d, i as int),
            None => find(s@, d) == -1 && forall|j: int| 0 <= j < s@.len() ==> s@[j] != d,
        },
{
    let n = s.unicode_len();
    let mut i: usize = 0;
    while i < n
        invariant
            n == s@.len(),
            i <= n,
            forall|j: int| 0 <= j < i ==> s@[j] != d,
        decreases n - i,
    {
        if s.get_char(i) == d {
            assert(first_at(s@, d, i as int));
            proof {
                let k = choose|k: int| first_at(s@, d, k);
                assert(!(k < i) && !(i < k));
            }
            return Some(i);
        }
        i = i + 1;
    }
    assert(!exists|k: int| first_at(s@, d, k));
    None
}

/// Cuts `s` once at its first `d`, as `split_once` says.
pub(crate) fn cut_once(s: &str, d: char) -> (r: (String, Option<String>))
    ensures
        r.0@ == split_once(s@, d).0,
        match r.1 {
            Some(t) => split_once(s@, d).1 == Some(t@),
            None => split_once(s@, d).1 is None,
        },
{
    let n = s.unicode_len();
    match find_char(s, d) {
        None => (String::from_str(s), None),
        Some(k) => {
            let left = String::from_str(s.substring_char(0, k));
            if k + 1 == n {
                (left, None)
            } else {
                (left, Some(String::from_str(s.substring_char(k + 1, n))))
            }
        },
    }
}

} // verus!
