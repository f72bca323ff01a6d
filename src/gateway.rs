//! The link gateway: only `http://`, `https://`, `mailto:` and `tel:` links
//! reach the system opener.

use vstd::prelude::*;
use vstd::string::*;

use crate::error::BridgeError;
use crate::text::{chars_of, string_of};

verus! {

/// A character of Unicode's White_Space property.
pub open spec fn is_white_space(c: char) -> bool {
    let u = c as u32;
    ||| 0x9 <= u <= 0xd
    ||| u == 0x20
    ||| u == 0x85
    ||| u == 0xa0
    ||| u == 0x1680
    ||| 0x2000 <= u <= 0x200a
    ||| u == 0x2028
    ||| u == 0x2029
    ||| u == 0x202f
    ||| u == 0x205f
    ||| u == 0x3000
}

/// How many characters of `s` are white space before the first other one.
pub open spec fn leading_white(s: Seq<char>) -> nat
    decreases s.len(),
{
    if s.len() > 0 && is_white_space(s[0]) {
        1 + leading_white(s.drop_first())
    } else {
        0
    }
}

/// How many characters of `s` are white space after the last other one.
pub open spec fn trailing_white(s: Seq<char>) -> nat
    decreases s.len(),
{
    if s.len() > 0 && is_white_space(s.last()) {
        1 + trailing_white(s.drop_last())
    } else {
        0
    }
}

/// `s` without its leading and trailing white space.
pub open spec fn trimmed(s: Seq<char>) -> Seq<char> {
    let t = s.subrange(leading_white(s) as int, s.len() as int);
    t.subrange(0, t.len() - trailing_white(t))
}

proof fn lemma_leading_white(s: Seq<char>, i: int)
    requires
        0 <= i <= s.len(),
        forall|j: int| 0 <= j < i ==> is_white_space(#[trigger] s[j]),
        i == s.len() || !is_white_space(s[i]),
    ensures
        leading_white(s) == i,
    decreases i,
{
    if i > 0 {
        let t = s.drop_first();
        assert forall|j: int| 0 <= j < i - 1 implies is_white_space(#[trigger] t[j]) by {
            assert(t[j] == s[j + 1]);
        }
        lemma_leading_white(t, i - 1);
    }
}

proof fn lemma_trailing_white(s: Seq<char>, k: int)
    requires
        0 <= k <= s.len(),
        forall|j: int| s.len() - k <= j < s.len() ==> is_white_space(#[trigger] s[j]),
        k == s.len() || !is_white_space(s[s.len() - k - 1]),
    ensures
        trailing_white(s) == k,
    decreases k,
{
    if k > 0 {
        let t = s.drop_last();
        assert forall|j: int| t.len() - (k - 1) <= j < t.len() implies is_white_space(
            #[trigger] t[j],
        ) by {
            assert(t[j] == s[j]);
        }
        lemma_trailing_white(t, k - 1);
    }
}

/// Whether `c` is white space.
fn is_white_space_char(c: char) -> (r: bool)
    ensures
        r == is_white_space(c),
{
    let u = c as u32;
    (0x9 <= u && u <= 0xd) || u == 0x20 || u == 0x85 || u == 0xa0 || u == 0x1680 || (0x2000 <= u
        && u <= 0x200a) || u == 0x2028 || u == 0x2029 || u == 0x202f || u == 0x205f || u == 0x3000
}

/// `s` without its leading and trailing white space.
pub fn trim_whitespace(s: &str) -> (r: String)
    ensures
        r@ == trimmed(s@),
{
    let v = chars_of(s);
    let n = v.len();
    let mut lo: usize = 0;
    while lo < n && is_white_space_char(v[lo])
        invariant
            n == v@.len(),
            lo <= n,
            forall|j: int| 0 <= j < lo ==> is_white_space(#[trigger] v@[j]),
        decreases n - lo,
    {
        lo = lo + 1;
    }
    proof {
        lemma_leading_white(v@, lo as int);
    }
    let ghost t = v@.subrange(lo as int, n as int);
    let mut hi: usize = n;
    while hi > lo && is_white_space_char(v[hi - 1])
        invariant
            n == v@.len(),
            lo <= hi <= n,
            t == v@.subrange(lo as int, n as int),
            forall|j: int| hi <= j < n ==> is_white_space(#[trigger] v@[j]),
        decreases hi,
    {
        hi = hi - 1;
    }
    proof {
        let k = (n - hi) as int;
        assert forall|j: int| t.len() - k <= j < t.len() implies is_white_space(#[trigger] t[j]) by {
            assert(t[j] == v@[j + lo]);
        }
        if k < t.len() {
            assert(t[t.len() - k - 1] == v@[hi - 1]);
        }
        lemma_trailing_white(t, k);
    }
    let mut out: Vec<char> = Vec::new();
    let mut i: usize = lo;
    while i < hi
        invariant
            lo <= i <= hi,
            hi <= n,
            n == v@.len(),
            out@ == v@.subrange(lo as int, i as int),
        decreases hi - i,
    {
        out.push(v[i]);
        i = i + 1;
        assert(out@ =~= v@.subrange(lo as int, i as int));
    }
    assert(out@ =~= trimmed(v@));
    string_of(&out)
}

/// `s` begins with `p`, compared character by character.
pub open spec fn starts_with(s: Seq<char>, p: Seq<char>) -> bool {
    p.len() <= s.len() && s.subrange(0, p.len() as int) == p
}

/// A link that may be handed to the system opener.
pub open spec fn is_allowed_link(u: Seq<char>) -> bool {
    ||| starts_with(u, "http://"@)
    ||| starts_with(u, "https://"@)
    ||| starts_with(u, "mailto:"@)
    ||| starts_with(u, "tel:"@)
}

/// What the gateway hands to the system opener for `url`: its trimmed form
/// when that carries an allowed scheme, and nothing otherwise.
pub open spec fn link_to_open(url: Seq<char>) -> Option<Seq<char>> {
    if is_allowed_link(trimmed(url)) {
        Some(trimmed(url))
    } else {
        None
    }
}

/// Whether `s` begins with `p` (case-sensitive).
pub fn has_prefix(s: &str, p: &str) -> (r: bool)
    ensures
        r == starts_with(s@, p@),
{
    let n = s.unicode_len();
    let m = p.unicode_len();
    if m > n {
        return false;
    }
    let mut i: usize = 0;
    while i < m
        invariant
            m == p@.len(),
            n == s@.len(),
            m <= n,
            i <= m,
            forall|j: int| 0 <= j < i ==> s@[j] == p@[j],
        decreases m - i,
    {
        if s.get_char(i) != p.get_char(i) {
            assert(s@.subrange(0, m as int)[i as int] != p@[i as int]);
            return false;
        }
        i = i + 1;
    }
    assert(s@.subrange(0, m as int) =~= p@);
    true
}

/// Whether an already trimmed link carries one of the allowed schemes.
pub fn is_allowed_scheme(url: &str) -> (r: bool)
    ensures
        r == is_allowed_link(url@),
{
    has_prefix(url, "http://") || has_prefix(url, "https://") || has_prefix(url, "mailto:")
        || has_prefix(url, "tel:")
}

/// Decides what `open_external` hands to the system opener: the trimmed link
/// when its scheme is allowed, and nothing (`SchemeRejected`) otherwise. The
/// opener is to be called only on `Ok`.
pub fn check_external_url(url: &str) -> (r: Result<String, BridgeError>)
    ensures
        link_to_open(url@) matches Some(l) ==> (r matches Ok(t) && t@ == l),
        link_to_open(url@) is None ==> r == Err::<String, BridgeError>(
            BridgeError::SchemeRejected,
        ),
{
    let t = trim_whitespace(url);
    if is_allowed_scheme(t.as_str()) {
        Ok(t)
    } else {
        Err(BridgeError::SchemeRejected)
    }
}

/// Turns what the system opener reported into the command's result: its
/// message becomes `OsOpenError`.
pub fn finish_open(opened: Result<(), String>) -> (r: Result<(), BridgeError>)
    ensures
        opened is Ok ==> r is Ok,
        opened matches Err(m) ==> (r matches Err(BridgeError::OsOpenError(e)) && e@ == m@),
{
    match opened {
        Ok(()) => Ok(()),
        Err(m) => Err(BridgeError::OsOpenError(m)),
    }
}

/// A link whose trimmed form lacks an allowed scheme never reaches the
/// opener, and whatever reaches it carries an allowed scheme.
pub proof fn lemma_only_allowed_links_are_opened(url: Seq<char>)
    ensures
        !is_allowed_link(trimmed(url)) ==> link_to_open(url) is None,
        link_to_open(url) matches Some(l) ==> is_allowed_link(l),
{
}

} // verus!
