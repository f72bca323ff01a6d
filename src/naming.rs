//! Names for downloaded files: unsafe characters replaced, and a numbered
//! suffix chosen when the name is already taken in the download directory.

use vstd::prelude::*;

use crate::text::{chars_of, string_of};

verus! {

/// A character that could make a name leave its directory.
pub open spec fn is_unsafe_char(c: char) -> bool {
    c == '/' || c == '\\' || c == '\0'
}

/// `name` with every unsafe character replaced by `_`.
pub open spec fn sanitized(name: Seq<char>) -> Seq<char> {
    name.map_values(|c: char| if is_unsafe_char(c) { '_' } else { c })
}

/// No character of `name` is unsafe.
pub open spec fn has_no_separator(name: Seq<char>) -> bool {
    forall|i: int| 0 <= i < name.len() ==> !is_unsafe_char(#[trigger] name[i])
}

/// A name that denotes a file directly inside a directory: neither empty nor
/// `.` nor `..`.
pub open spec fn is_plain_name(name: Seq<char>) -> bool {
    name.len() > 0 && name != seq!['.'] && name != seq!['.', '.']
}

/// The position of the last `.` before `end` that is not the first character,
/// or 0 when there is none.
pub open spec fn last_dot_before(name: Seq<char>, end: int) -> int
    decreases end,
{
    if end <= 1 {
        0
    } else if name[end - 1] == '.' {
        end - 1
    } else {
        last_dot_before(name, end - 1)
    }
}

/// Where the extension of `name` begins: at its last `.`, unless that dot is
/// the first character or there is none, in which case the extension is empty.
pub open spec fn ext_start(name: Seq<char>) -> int {
    let k = last_dot_before(name, name.len() as int);
    if k == 0 {
        name.len() as int
    } else {
        k
    }
}

/// The name without its extension.
pub open spec fn stem(name: Seq<char>) -> Seq<char> {
    name.subrange(0, ext_start(name))
}

/// The extension, with its dot (empty when there is none).
pub open spec fn extension(name: Seq<char>) -> Seq<char> {
    name.subrange(ext_start(name), name.len() as int)
}

/// The character of a decimal digit.
pub open spec fn digit_char(d: nat) -> char {
    seq!['0', '1', '2', '3', '4', '5', '6', '7', '8', '9'][d as int]
}

/// `n` in decimal, without leading zeros.
pub open spec fn decimal(n: nat) -> Seq<char>
    decreases n,
{
    if n < 10 {
        seq![digit_char(n)]
    } else {
        decimal(n / 10).push(digit_char(n % 10))
    }
}

/// The `n`-th name tried for `name`: the name itself, then `stem (n)ext`.
pub open spec fn candidate(name: Seq<char>, n: nat) -> Seq<char> {
    if n == 0 {
        name
    } else {
        stem(name) + seq![' ', '('] + decimal(n) + seq![')'] + extension(name)
    }
}

/// A name that cannot be used: not plain, or already in the directory.
pub open spec fn is_taken(existing: Set<Seq<char>>, name: Seq<char>) -> bool {
    !is_plain_name(name) || existing.contains(name)
}

/// `n` is the first index whose candidate is free.
pub open spec fn is_first_free(name: Seq<char>, existing: Set<Seq<char>>, n: nat) -> bool {
    &&& !is_taken(existing, candidate(name, n))
    &&& forall|m: nat| m < n ==> is_taken(existing, #[trigger] candidate(name, m))
}

/// The names in a directory listing, as a set.
pub open spec fn name_set(listing: Seq<String>) -> Set<Seq<char>> {
    listing.map_values(|s: String| s@).to_set()
}

proof fn lemma_decimal_nonempty(n: nat)
    ensures
        decimal(n).len() >= 1,
    decreases n,
{
    if n >= 10 {
        lemma_decimal_nonempty(n / 10);
    }
}

proof fn lemma_decimal_injective(a: nat, b: nat)
    requires
        decimal(a) == decimal(b),
    ensures
        a == b,
    decreases a,
{
    let digits = seq!['0', '1', '2', '3', '4', '5', '6', '7', '8', '9'];
    if a < 10 && b < 10 {
        assert(digits[a as int] == decimal(a)[0]);
    } else if a < 10 {
        lemma_decimal_nonempty(b / 10);
        assert(decimal(a).len() == 1);
    } else if b < 10 {
        lemma_decimal_nonempty(a / 10);
        assert(decimal(b).len() == 1);
    } else {
        let da = decimal(a / 10);
        let db = decimal(b / 10);
        assert(decimal(a).drop_last() =~= da);
        assert(decimal(b).drop_last() =~= db);
        lemma_decimal_injective(a / 10, b / 10);
        assert(decimal(a).last() == digit_char(a % 10));
        assert(decimal(b).last() == digit_char(b % 10));
        assert(a % 10 == b % 10);
    }
}

/// Numbered candidates of one name are pairwise distinct.
proof fn lemma_candidate_injective(name: Seq<char>, a: nat, b: nat)
    requires
        a >= 1,
        b >= 1,
        candidate(name, a) == candidate(name, b),
    ensures
        a == b,
{
    let s = stem(name);
    let e = extension(name);
    let ca = candidate(name, a);
    let cb = candidate(name, b);
    let lo: int = s.len() as int + 2;
    assert(ca == s + seq![' ', '('] + decimal(a) + seq![')'] + e);
    assert(cb == s + seq![' ', '('] + decimal(b) + seq![')'] + e);
    assert(ca.len() == s.len() + 3 + decimal(a).len() + e.len());
    assert(cb.len() == s.len() + 3 + decimal(b).len() + e.len());
    assert(decimal(a).len() == decimal(b).len());
    assert(ca.subrange(lo, lo + decimal(a).len() as int) =~= decimal(a));
    assert(cb.subrange(lo, lo + decimal(b).len() as int) =~= decimal(b));
    lemma_decimal_injective(a, b);
}

/// A numbered candidate is a plain name.
proof fn lemma_numbered_candidate_plain(name: Seq<char>, n: nat)
    requires
        n >= 1,
    ensures
        is_plain_name(candidate(name, n)),
{
    lemma_decimal_nonempty(n);
    assert(candidate(name, n).len() >= 4);
}

proof fn lemma_last_dot_range(name: Seq<char>, end: int)
    requires
        end <= name.len(),
    ensures
        0 <= last_dot_before(name, end),
        last_dot_before(name, end) < end || last_dot_before(name, end) == 0,
    decreases end,
{
    if end > 1 && name[end - 1] != '.' {
        lemma_last_dot_range(name, end - 1);
    }
}

/// Where the extension of `name` begins; see `ext_start`.
pub fn extension_start(name: &Vec<char>) -> (r: usize)
    ensures
        r == ext_start(name@),
{
    let n = name.len();
    let mut end: usize = n;
    while end > 1
        invariant
            end <= n,
            n == name@.len(),
            last_dot_before(name@, n as int) == last_dot_before(name@, end as int),
        decreases end,
    {
        if name[end - 1] == '.' {
            return end - 1;
        }
        end = end - 1;
    }
    n
}

/// Appends the decimal digits of `n` to `out`.
fn push_decimal(n: u64, out: &mut Vec<char>)
    ensures
        final(out)@ == old(out)@ + decimal(n as nat),
    decreases n,
{
    let digits = ['0', '1', '2', '3', '4', '5', '6', '7', '8', '9'];
    if n >= 10 {
        push_decimal(n / 10, out);
    }
    let d = digits[(n % 10) as usize];
    assert(d == digit_char((n % 10) as nat));
    out.push(d);
    assert(final(out)@ =~= old(out)@ + decimal(n as nat));
}

/// Builds `candidate(name, n)` as characters.
fn candidate_chars(name: &Vec<char>, n: u64) -> (r: Vec<char>)
    ensures
        r@ == candidate(name@, n as nat),
{
    if n == 0 {
        return name.clone();
    }
    let k = extension_start(name);
    proof {
        lemma_last_dot_range(name@, name@.len() as int);
    }
    let mut out: Vec<char> = Vec::new();
    let mut i: usize = 0;
    while i < k
        invariant
            k == ext_start(name@),
            k <= name@.len(),
            i <= k,
            out@ == name@.subrange(0, i as int),
        decreases k - i,
    {
        out.push(name[i]);
        i = i + 1;
        assert(out@ =~= name@.subrange(0, i as int));
    }
    out.push(' ');
    out.push('(');
    push_decimal(n, &mut out);
    out.push(')');
    let ghost head = out@;
    assert(head =~= stem(name@) + seq![' ', '('] + decimal(n as nat) + seq![')']);
    while i < name.len()
        invariant
            k <= i <= name@.len(),
            k == ext_start(name@),
            out@ == head + name@.subrange(k as int, i as int),
        decreases name@.len() - i,
    {
        out.push(name[i]);
        i = i + 1;
        assert(out@ =~= head + name@.subrange(k as int, i as int));
    }
    assert(out@ =~= candidate(name@, n as nat));
    out
}

/// The `n`-th name tried for `name`: `name` itself when `n` is 0, else
/// `stem (n)ext`, as in `report.pdf`, `report (1).pdf`, `report (2).pdf`.
pub fn candidate_name(name: &str, n: u64) -> (r: String)
    ensures
        r@ == candidate(name@, n as nat),
{
    let v = chars_of(name);
    let c = candidate_chars(&v, n);
    string_of(&c)
}

/// `name` with every `/`, backslash and NUL replaced by `_`.
pub fn sanitize_filename(name: &str) -> (r: String)
    ensures
        r@ == sanitized(name@),
{
    let v = chars_of(name);
    let mut out: Vec<char> = Vec::new();
    let mut i: usize = 0;
    while i < v.len()
        invariant
            i <= v@.len(),
            out@ == sanitized(v@.subrange(0, i as int)),
        decreases v@.len() - i,
    {
        let c = v[i];
        if c == '/' || c == '\\' || c == '\0' {
            out.push('_');
        } else {
            out.push(c);
        }
        i = i + 1;
        assert(out@ =~= sanitized(v@.subrange(0, i as int)));
    }
    assert(v@.subrange(0, v@.len() as int) =~= v@);
    string_of(&out)
}

/// Whether `name` is among the names of `listing`.
fn is_listed(listing: &Vec<String>, name: &String) -> (r: bool)
    ensures
        r == name_set(listing@).contains(name@),
{
    let mut i: usize = 0;
    while i < listing.len()
        invariant
            i <= listing@.len(),
            forall|j: int| 0 <= j < i ==> listing@[j]@ != name@,
        decreases listing@.len() - i,
    {
        if listing[i] == *name {
            assert(listing@.map_values(|s: String| s@)[i as int] == name@);
            return true;
        }
        i = i + 1;
    }
    assert forall|x: Seq<char>| name_set(listing@).contains(x) implies x != name@ by {
        let views = listing@.map_values(|s: String| s@);
        let j = choose|j: int| 0 <= j < views.len() && #[trigger] views[j] == x;
        assert(listing@[j]@ == views[j]);
    }
    false
}

/// Whether `name` is plain: not empty, `.` or `..`.
fn is_plain(name: &String) -> (r: bool)
    ensures
        r == is_plain_name(name@),
{
    let v = chars_of(name.as_str());
    if v.len() == 0 {
        return false;
    }
    if v.len() == 1 && v[0] == '.' {
        assert(v@ =~= seq!['.']);
        return false;
    }
    if v.len() == 2 && v[0] == '.' && v[1] == '.' {
        assert(v@ =~= seq!['.', '.']);
        return false;
    }
    assert(v@ != seq!['.']) by {
        if v@.len() == 1 { assert(v@[0] != seq!['.'][0]); }
    }
    assert(v@ != seq!['.', '.']) by {
        if v@.len() == 2 { assert(v@[0] != '.' || v@[1] != '.'); }
    }
    true
}

/// The name under which a download of `filename` is stored, given the names
/// already in the download directory: the sanitized name if it is free, else
/// the first free `stem (n)ext` for `n = 1, 2, ...`. The result is never one
/// of `listing`, and never empty, `.` or `..`.
pub fn resolve_download_name(filename: &str, listing: &Vec<String>) -> (r: String)
    requires
        listing@.len() < usize::MAX,
    ensures
        exists|n: nat| #[trigger]
            is_first_free(sanitized(filename@), name_set(listing@), n) && r@ == candidate(
                sanitized(filename@),
                n,
            ),
{
    let ghost existing = name_set(listing@);
    let ghost base = sanitized(filename@);
    let name = sanitize_filename(filename);
    if is_plain(&name) && !is_listed(listing, &name) {
        assert(is_first_free(base, existing, 0));
        return name;
    }
    let v = chars_of(name.as_str());
    proof {
        listing@.map_values(|s: String| s@).lemma_cardinality_of_set();
    }
    let mut n: u64 = 1;
    let ghost mut seen: Set<Seq<char>> = Set::empty();
    loop
        invariant
            v@ == base,
            base == sanitized(filename@),
            existing == name_set(listing@),
            1 <= n,
            seen.finite(),
            seen.len() == n - 1,
            seen.subset_of(existing),
            existing.finite(),
            existing.len() <= listing@.len(),
            listing@.len() < usize::MAX,
            forall|m: nat| m < n ==> is_taken(existing, #[trigger] candidate(base, m)),
            forall|m: nat| 1 <= m < n ==> seen.contains(#[trigger] candidate(base, m)),
            forall|x: Seq<char>| seen.contains(x) ==> exists|m: nat| 1 <= m < n && x == #[trigger] candidate(base, m),
        decreases existing.len() - seen.len(),
    {
        let c = string_of(&candidate_chars(&v, n));
        proof {
            lemma_numbered_candidate_plain(base, n as nat);
        }
        if !is_listed(listing, &c) {
            assert(is_first_free(base, existing, n as nat));
            return c;
        }
        proof {
            assert(!seen.contains(c@)) by {
                if seen.contains(c@) {
                    let m = choose|m: nat| 1 <= m < n && c@ == #[trigger] candidate(base, m);
                    lemma_candidate_injective(base, m, n as nat);
                }
            }
            vstd::set_lib::lemma_len_subset(seen.insert(c@), existing);
            seen = seen.insert(c@);
        }
        n = n + 1;
    }
}

proof fn lemma_decimal_has_no_separator(n: nat)
    ensures
        has_no_separator(decimal(n)),
    decreases n,
{
    let digits = seq!['0', '1', '2', '3', '4', '5', '6', '7', '8', '9'];
    assert forall|d: nat| d < 10 implies !is_unsafe_char(#[trigger] digit_char(d)) by {
        assert(digit_char(d) == digits[d as int]);
    }
    if n >= 10 {
        lemma_decimal_has_no_separator(n / 10);
    }
}

/// Sanitizing replaces exactly the unsafe characters by `_`, position by
/// position, and the name finally stored for a download has no separator or
/// NUL and is neither empty, `.` nor `..`: it is a direct child of the
/// download directory.
pub proof fn lemma_stored_name_is_direct_child(
    filename: Seq<char>,
    existing: Set<Seq<char>>,
    n: nat,
)
    requires
        is_first_free(sanitized(filename), existing, n),
    ensures
        sanitized(filename).len() == filename.len(),
        forall|i: int|
            0 <= i < filename.len() ==> (#[trigger] sanitized(filename)[i] == if is_unsafe_char(
                filename[i],
            ) {
                '_'
            } else {
                filename[i]
            }),
        has_no_separator(candidate(sanitized(filename), n)),
        is_plain_name(candidate(sanitized(filename), n)),
        !existing.contains(candidate(sanitized(filename), n)),
{
    let s = sanitized(filename);
    assert(has_no_separator(s));
    if n > 0 {
        lemma_last_dot_range(s, s.len() as int);
        lemma_decimal_has_no_separator(n);
        let c = candidate(s, n);
        assert(c == stem(s) + seq![' ', '('] + decimal(n) + seq![')'] + extension(s));
        assert forall|i: int| 0 <= i < c.len() implies !is_unsafe_char(#[trigger] c[i]) by {
            let a = stem(s).len() as int;
            let d = decimal(n).len() as int;
            if i < a {
                assert(c[i] == s[i]);
            } else if i < a + 2 {
            } else if i < a + 2 + d {
                assert(c[i] == decimal(n)[i - a - 2]);
            } else if i < a + 3 + d {
            } else {
                assert(c[i] == s[ext_start(s) + (i - a - 3 - d)]);
            }
        }
    }
}

/// Saving twice into one directory, the second save seeing the first one's
/// file, gives two different names.
pub proof fn lemma_second_save_gets_another_name(
    first: Seq<char>,
    second: Seq<char>,
    existing: Set<Seq<char>>,
    n1: nat,
    n2: nat,
)
    requires
        is_first_free(sanitized(first), existing, n1),
        is_first_free(sanitized(second), existing.insert(candidate(sanitized(first), n1)), n2),
    ensures
        candidate(sanitized(second), n2) != candidate(sanitized(first), n1),
{
}

} // verus!
