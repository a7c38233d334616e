//! Blankness of display names.
//!
//! A display name that is empty or made only of whitespace counts as absent:
//! feed queries fall back past such a name.  The whitespace set here is the
//! Unicode `White_Space` list that `char::is_whitespace` recognizes.

use vstd::prelude::*;
use vstd::std_specs::iter::IteratorSpec;

verus! {

broadcast use vstd::string::axiom_spec_iter, vstd::string::next_postcondition;

/// Whether `c` is a whitespace character (the Unicode `White_Space` set).
pub open spec fn is_space_char(c: char) -> bool {
    let u = c as u32;
    (0x09 <= u && u <= 0x0D) || u == 0x20 || u == 0x85 || u == 0xA0 || u == 0x1680 || (0x2000 <= u
        && u <= 0x200A) || u == 0x2028 || u == 0x2029 || u == 0x202F || u == 0x205F || u == 0x3000
}

/// A string is blank when every character of it is whitespace; the empty
/// string is blank.
pub open spec fn is_blank(s: Seq<char>) -> bool {
    forall|i: int| 0 <= i < s.len() ==> is_space_char(#[trigger] s[i])
}

/// The image of an optional display name.
pub open spec fn opt_str_view(o: Option<String>) -> Option<Seq<char>> {
    match o {
        None => None,
        Some(x) => Some(x@),
    }
}

/// Whether `c` is a whitespace character.
pub fn space_char(c: char) -> (r: bool)
    ensures
        r == is_space_char(c),
{
    let u: u32 = c as u32;
    (0x09 <= u && u <= 0x0D) || u == 0x20 || u == 0x85 || u == 0xA0 || u == 0x1680 || (0x2000 <= u
        && u <= 0x200A) || u == 0x2028 || u == 0x2029 || u == 0x202F || u == 0x205F || u == 0x3000
}

/// Whether `s` is empty or all whitespace.
pub fn blank_str(s: &str) -> (r: bool)
    ensures
        r == is_blank(s@),
{
    let mut it = s.chars();
    let ghost mut seen: Seq<char> = Seq::empty();
    loop
        invariant
            it.decrease() is Some,
            s@ =~= seen + it.remaining(),
            forall|i: int| 0 <= i < seen.len() ==> is_space_char(#[trigger] seen[i]),
        decreases it.decrease()->0,
    {
        match it.next() {
            None => {
                proof {
                    assert(s@ =~= seen);
                }
                return true;
            },
            Some(c) => {
                if !space_char(c) {
                    proof {
                        assert(s@[seen.len() as int] == c);
                    }
                    return false;
                }
                proof {
                    seen = seen.push(c);
                }
            },
        }
    }
}

/// `s` without its leading whitespace.
pub open spec fn trimmed_front(s: Seq<char>) -> Seq<char>
    decreases s.len(),
{
    if s.len() == 0 {
        s
    } else if is_space_char(s.first()) {
        trimmed_front(s.drop_first())
    } else {
        s
    }
}

/// `s` without its trailing whitespace.
pub open spec fn trimmed_back(s: Seq<char>) -> Seq<char>
    decreases s.len(),
{
    if s.len() == 0 {
        s
    } else if is_space_char(s.last()) {
        trimmed_back(s.drop_last())
    } else {
        s
    }
}

/// `s` with whitespace removed from both ends, as `str::trim` removes it.
pub open spec fn trimmed(s: Seq<char>) -> Seq<char> {
    trimmed_back(trimmed_front(s))
}

/// When the first `a` characters are whitespace and the one after them (if
/// any) is not, trimming the front drops exactly those `a`.
proof fn lemma_trimmed_front_at(s: Seq<char>, a: int)
    requires
        0 <= a <= s.len(),
        forall|j: int| 0 <= j < a ==> is_space_char(#[trigger] s[j]),
        a < s.len() ==> !is_space_char(s[a]),
    ensures
        trimmed_front(s) =~= s.skip(a),
    decreases a,
{
    if a == 0 {
        assert(s.skip(0) =~= s);
    } else {
        assert(is_space_char(s[0]));
        assert(s.first() == s[0]);
        let d = s.drop_first();
        assert(forall|j: int| 0 <= j < a - 1 ==> #[trigger] d[j] == s[j + 1]);
        lemma_trimmed_front_at(d, a - 1);
        assert(d.skip(a - 1) =~= s.skip(a));
    }
}

/// When every character from index `b` on is whitespace and the one before
/// `b` (if any) is not, trimming the back keeps exactly the first `b`.
proof fn lemma_trimmed_back_at(s: Seq<char>, b: int)
    requires
        0 <= b <= s.len(),
        forall|j: int| b <= j < s.len() ==> is_space_char(#[trigger] s[j]),
        b > 0 ==> !is_space_char(s[b - 1]),
    ensures
        trimmed_back(s) =~= s.take(b),
    decreases s.len(),
{
    if b == s.len() {
        if s.len() > 0 {
            assert(s.last() == s[s.len() - 1]);
        }
        assert(s.take(b) =~= s);
    } else {
        assert(is_space_char(s[s.len() - 1]));
        assert(s.last() == s[s.len() - 1]);
        let d = s.drop_last();
        assert(forall|j: int| 0 <= j < d.len() ==> #[trigger] d[j] == s[j]);
        lemma_trimmed_back_at(d, b);
        assert(d.take(b) =~= s.take(b));
    }
}

/// Relies on String::push: appends the given character to the end of the
/// string.
pub assume_specification[ String::push ](s: &mut String, ch: char)
    ensures
        final(s)@ == old(s)@.push(ch),
;

/// The characters of `s`, as a vector.
fn chars_vec(s: &str) -> (r: Vec<char>)
    ensures
        r@ == s@,
{
    let mut cv: Vec<char> = Vec::new();
    let mut it = s.chars();
    loop
        invariant
            it.decrease() is Some,
            s@ =~= cv@ + it.remaining(),
        decreases it.decrease()->0,
    {
        match it.next() {
            None => {
                proof {
                    assert(cv@ =~= s@);
                }
                return cv;
            },
            Some(c) => {
                cv.push(c);
                proof {
                    assert(cv@ + it.remaining() =~= s@);
                }
            },
        }
    }
}

/// `s` with whitespace removed from both ends.  The result of a string that
/// is not all whitespace is never empty.
pub fn trim_str(s: &str) -> (r: String)
    ensures
        r@ == trimmed(s@),
        !is_blank(s@) ==> r@.len() > 0,
{
    let cv = chars_vec(s);
    let n: usize = cv.len();
    let mut a: usize = 0;
    while a < n && space_char(cv[a])
        invariant
            n == cv@.len(),
            a <= n,
            forall|j: int| 0 <= j < a ==> is_space_char(#[trigger] cv@[j]),
        decreases n - a,
    {
        a = a + 1;
    }
    let mut b: usize = n;
    while b > a && space_char(cv[b - 1])
        invariant
            n == cv@.len(),
            a <= b <= n,
            forall|j: int| b <= j < n ==> is_space_char(#[trigger] cv@[j]),
        decreases b,
    {
        b = b - 1;
    }
    let mut out = String::new();
    let mut i: usize = a;
    while i < b
        invariant
            n == cv@.len(),
            a <= i <= b <= n,
            out@ == cv@.subrange(a as int, i as int),
        decreases b - i,
    {
        let c = cv[i];
        out.push(c);
        proof {
            assert(cv@.subrange(a as int, i + 1) =~= cv@.subrange(a as int, i as int).push(
                cv@[i as int],
            ));
        }
        i = i + 1;
    }
    proof {
        lemma_trimmed_front_at(cv@, a as int);
        let tail = cv@.skip(a as int);
        assert(forall|j: int|
            b - a <= j < tail.len() ==> is_space_char(#[trigger] tail[j])) by {
            assert(forall|j: int| b - a <= j < tail.len() ==> tail[j] == cv@[j + a]);
        }
        assert(b > a ==> tail[b - a - 1] == cv@[b - 1]);
        lemma_trimmed_back_at(tail, b - a);
        assert(tail.take(b - a) =~= cv@.subrange(a as int, b as int));
        assert(out@ == trimmed(s@));
        if !is_blank(s@) {
            // Some character is not whitespace; the front scan cannot have
            // consumed the whole string, and the back scan stops above it.
            assert(a < n) by {
                if a == n {
                    assert(forall|i2: int|
                        0 <= i2 < s@.len() ==> is_space_char(#[trigger] s@[i2]));
                }
            }
            assert(b > a);
        }
    }
    out
}

} // verus!
