//! Operations on names as sequences of characters: substring containment,
//! the extension of a base name, and lower-casing.
use vstd::prelude::*;
use vstd::string::*;

verus! {

/// `frag` occurs in `s` starting at position `i`.
pub open spec fn occurs_at(s: Seq<char>, frag: Seq<char>, i: int) -> bool {
    0 <= i && i + frag.len() <= s.len() && s.subrange(i, i + frag.len()) == frag
}

/// `frag` is a substring of `s` (the empty fragment is a substring of every text).
pub open spec fn contains_text(s: Seq<char>, frag: Seq<char>) -> bool {
    exists|i: int| occurs_at(s, frag, i)
}

/// `i` is the position of the last `.` in `name`.
pub open spec fn is_last_dot(name: Seq<char>, i: int) -> bool {
    &&& 0 <= i < name.len()
    &&& name[i] == '.'
    &&& forall|j: int| i < j < name.len() ==> name[j] != '.'
}

/// The extension of a base name: the text that follows its last `.`, without
/// the dot (`profile` for `.profile`, empty for `notes.`). A name with no `.`
/// has no extension.
pub open spec fn extension_of(name: Seq<char>) -> Option<Seq<char>> {
    if exists|i: int| is_last_dot(name, i) {
        let i = choose|i: int| is_last_dot(name, i);
        Some(name.subrange(i + 1, name.len() as int))
    } else {
        None
    }
}

/// What `str::to_lowercase` makes of a text; it depends on the text alone.
pub uninterp spec fn lower_of(s: Seq<char>) -> Seq<char>;

/// Every character of `s` is ASCII.
pub open spec fn is_ascii_text(s: Seq<char>) -> bool {
    forall|i: int| 0 <= i < s.len() ==> (s[i] as u32) < 128
}

/// The code of `c` after ASCII lower-casing: `A` to `Z` become `a` to `z`,
/// every other character stays.
pub open spec fn ascii_lower_code(c: char) -> u32 {
    if 65 <= c as u32 && c as u32 <= 90 {
        (c as u32 + 32) as u32
    } else {
        c as u32
    }
}

/// `r` is `s` with each ASCII capital letter replaced by its small letter.
pub open spec fn lowers_ascii(s: Seq<char>, r: Seq<char>) -> bool {
    &&& r.len() == s.len()
    &&& forall|i: int| 0 <= i < s.len() ==> (#[trigger] r[i]) as u32 == ascii_lower_code(s[i])
}

/// `c` and `d` are the same character up to ASCII letter case.
pub open spec fn same_ignoring_ascii_case(c: char, d: char) -> bool {
    ascii_lower_code(c) == ascii_lower_code(d)
}

/// `frag` occurs in `s` at position `i` up to ASCII letter case.
pub open spec fn occurs_ignoring_ascii_case(s: Seq<char>, frag: Seq<char>, i: int) -> bool {
    &&& 0 <= i
    &&& i + frag.len() <= s.len()
    &&& forall|k: int| 0 <= k < frag.len() ==> same_ignoring_ascii_case(#[trigger] s[i + k], frag[k])
}

/// Relies on `str::to_lowercase`: the lower-case form of `s` under Unicode's
/// default case mapping, a function of the characters of `s` alone. On ASCII
/// text that mapping turns `A` to `Z` into `a` to `z` and keeps every other
/// character (the empty text stays empty).
#[verifier::external_body]
pub(crate) fn to_lower(s: &str) -> (r: String)
    ensures
        r@ == lower_of(s@),
        is_ascii_text(s@) ==> lowers_ascii(s@, r@),
{
    s.to_lowercase()
}

/// Two characters with the same code are the same character.
proof fn lemma_char_code_injective(c: char, d: char)
    requires
        c as u32 == d as u32,
    ensures
        c == d,
{
}

/// Once both texts are lowered, a fragment occurs in a text exactly where it
/// occurs up to ASCII letter case.
pub proof fn lemma_lowered_occurrence(s: Seq<char>, frag: Seq<char>, ls: Seq<char>, lf: Seq<char>)
    requires
        lowers_ascii(s, ls),
        lowers_ascii(frag, lf),
    ensures
        contains_text(ls, lf) <==> exists|i: int| occurs_ignoring_ascii_case(s, frag, i),
{
    assert forall|i: int| occurs_at(ls, lf, i) <==> occurs_ignoring_ascii_case(s, frag, i) by {
        if occurs_at(ls, lf, i) {
            assert forall|k: int| 0 <= k < frag.len() implies same_ignoring_ascii_case(
                #[trigger] s[i + k],
                frag[k],
            ) by {
                assert(ls.subrange(i, i + lf.len())[k] == lf[k]);
                assert(ls[i + k] == lf[k]);
            }
        }
        if occurs_ignoring_ascii_case(s, frag, i) {
            assert forall|k: int| 0 <= k < lf.len() implies ls.subrange(i, i + lf.len())[k] == lf[k] by {
                assert(same_ignoring_ascii_case(s[i + k], frag[k]));
                assert(ls[i + k] as u32 == ascii_lower_code(s[i + k]));
                assert(lf[k] as u32 == ascii_lower_code(frag[k]));
                assert(ls[i + k] as u32 == lf[k] as u32);
                lemma_char_code_injective(ls[i + k], lf[k]);
                assert(ls.subrange(i, i + lf.len())[k] == ls[i + k]);
            }
            assert(ls.subrange(i, i + lf.len()) =~= lf);
        }
    }
    if contains_text(ls, lf) {
        let i = choose|i: int| occurs_at(ls, lf, i);
        assert(occurs_ignoring_ascii_case(s, frag, i));
    }
    if exists|i: int| occurs_ignoring_ascii_case(s, frag, i) {
        let i = choose|i: int| occurs_ignoring_ascii_case(s, frag, i);
        assert(occurs_at(ls, lf, i));
    }
}

/// The characters of `s`, one element each.
pub fn chars_of(s: &str) -> (r: Vec<char>)
    ensures
        r@ == s@,
{
    let n = s.unicode_len();
    let mut r: Vec<char> = Vec::new();
    let mut i: usize = 0;
    while i < n
        invariant
            n == s@.len(),
            i <= n,
            r@ == s@.subrange(0, i as int),
        decreases n - i,
    {
        r.push(s.get_char(i));
        i = i + 1;
    }
    assert(r@ == s@);
    r
}

/// Whether `frag` occurs in `s` at position `i`.
fn occurs_at_exec(s: &Vec<char>, frag: &Vec<char>, i: usize) -> (r: bool)
    requires
        i + frag@.len() <= s@.len(),
    ensures
        r == occurs_at(s@, frag@, i as int),
{
    let n = s.len();
    let m = frag.len();
    let mut k: usize = 0;
    while k < m
        invariant
            n == s@.len(),
            m == frag@.len(),
            i + m <= n,
            k <= m,
            forall|j: int| 0 <= j < k ==> s@[i + j] == frag@[j],
        decreases m - k,
    {
        if s[i + k] != frag[k] {
            assert(s@.subrange(i as int, i + m)[k as int] != frag@[k as int]);
            return false;
        }
        k = k + 1;
    }
    assert(s@.subrange(i as int, i + m) =~= frag@);
    true
}

/// Whether `frag` is a substring of `s`.
pub fn contains_chars(s: &Vec<char>, frag: &Vec<char>) -> (r: bool)
    ensures
        r == contains_text(s@, frag@),
{
    let n = s.len();
    let m = frag.len();
    if m > n {
        return false;
    }
    let mut i: usize = 0;
    loop
        invariant
            n == s@.len(),
            m == frag@.len(),
            m <= n,
            i <= n - m,
            forall|j: int| 0 <= j < i ==> !occurs_at(s@, frag@, j),
        decreases n - m - i,
    {
        if occurs_at_exec(s, frag, i) {
            return true;
        }
        if i == n - m {
            return false;
        }
        i = i + 1;
    }
}

/// Whether `name` has the extension `ext`, compared character by character.
pub fn has_extension(name: &Vec<char>, ext: &Vec<char>) -> (r: bool)
    ensures
        r == (extension_of(name@) == Some(ext@)),
{
    let n = name.len();
    // search for the last dot, from the end
    let mut k: usize = n;
    while k > 0
        invariant
            k <= n == name@.len(),
            forall|j: int| k <= j < n ==> name@[j] != '.',
        ensures
            k <= n,
            forall|j: int| k <= j < n ==> name@[j] != '.',
            k == 0 || name@[k - 1] == '.',
        decreases k,
    {
        if name[k - 1] == '.' {
            break;
        }
        k = k - 1;
    }
    if k == 0 {
        assert(!exists|i: int| is_last_dot(name@, i));
        return false;
    }
    let i: usize = k - 1;
    assert(is_last_dot(name@, i as int));
    assert forall|j: int| is_last_dot(name@, j) implies j == i by {
        if j < i {
            assert(name@[i as int] != '.');
        } else if j > i {
            assert(name@[j] != '.');
        }
    }
    let tail_len = n - k;
    if tail_len != ext.len() {
        assert(name@.subrange(k as int, n as int).len() != ext@.len());
        return false;
    }
    let mut j: usize = 0;
    while j < tail_len
        invariant
            tail_len == ext@.len(),
            k + tail_len == n == name@.len(),
            j <= tail_len,
            forall|t: int| 0 <= t < j ==> name@[k + t] == ext@[t],
        decreases tail_len - j,
    {
        if name[k + j] != ext[j] {
            assert(name@.subrange(k as int, n as int)[j as int] != ext@[j as int]);
            return false;
        }
        j = j + 1;
    }
    assert(name@.subrange(k as int, n as int) =~= ext@);
    true
}

} // verus!
