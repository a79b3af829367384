//! Character classes and searching primitives over sequences of characters.
//!
//! Everything in this module is shared by the inline rewriters and the line
//! scanner: whitespace and digit classification, counting runs of a
//! character class at either end of a line, and finding the leftmost
//! occurrence of a literal pattern.

use vstd::prelude::*;
use vstd::string::StrSliceExecFns;

verus! {

/// A character with the Unicode `White_Space` property: the set removed by
/// `str::trim` and matched by the `\s` character class.
pub open spec fn is_space_char(c: char) -> bool {
    ||| c as u32 == 0x20
    ||| c as u32 == 0x09
    ||| c as u32 == 0x0a
    ||| c as u32 == 0x0b
    ||| c as u32 == 0x0c
    ||| c as u32 == 0x0d
    ||| c as u32 == 0x85
    ||| c as u32 == 0xa0
    ||| c as u32 == 0x1680
    ||| (0x2000 <= c as u32 && c as u32 <= 0x200a)
    ||| c as u32 == 0x2028
    ||| c as u32 == 0x2029
    ||| c as u32 == 0x202f
    ||| c as u32 == 0x205f
    ||| c as u32 == 0x3000
}

/// An ASCII decimal digit, `'0'` through `'9'`.
pub open spec fn is_digit_char(c: char) -> bool {
    0x30 <= c as u32 && c as u32 <= 0x39
}

pub fn is_space(c: char) -> (b: bool)
    ensures
        b == is_space_char(c),
{
    let u = c as u32;
    u == 0x20 || u == 0x09 || u == 0x0a || u == 0x0b || u == 0x0c || u == 0x0d || u == 0x85
        || u == 0xa0 || u == 0x1680 || (0x2000 <= u && u <= 0x200a) || u == 0x2028 || u == 0x2029
        || u == 0x202f || u == 0x205f || u == 0x3000
}

pub fn is_digit(c: char) -> (b: bool)
    ensures
        b == is_digit_char(c),
{
    let u = c as u32;
    0x30 <= u && u <= 0x39
}

/// The whitespace class as a predicate value, for the counting functions.
pub open spec fn space_pred() -> spec_fn(char) -> bool {
    |c: char| is_space_char(c)
}

/// The class holding only `'#'`.
pub open spec fn hash_pred() -> spec_fn(char) -> bool {
    |c: char| c == '#'
}

/// The class holding only `'-'`.
pub open spec fn dash_pred() -> spec_fn(char) -> bool {
    |c: char| c == '-'
}

/// The class holding only `' '`; list indentation counts plain spaces only.
pub open spec fn blank_pred() -> spec_fn(char) -> bool {
    |c: char| c == ' '
}

/// How many characters of the class `p` stand at the front of `s`.
pub open spec fn count_leading(s: Seq<char>, p: spec_fn(char) -> bool) -> int
    decreases s.len(),
{
    if s.len() == 0 || !p(s[0]) {
        0
    } else {
        1 + count_leading(s.skip(1), p)
    }
}

/// How many characters of the class `p` stand at the back of `s`.
pub open spec fn count_trailing(s: Seq<char>, p: spec_fn(char) -> bool) -> int
    decreases s.len(),
{
    if s.len() == 0 || !p(s[s.len() - 1]) {
        0
    } else {
        1 + count_trailing(s.drop_last(), p)
    }
}

pub proof fn lemma_count_leading(s: Seq<char>, p: spec_fn(char) -> bool)
    ensures
        0 <= count_leading(s, p) <= s.len(),
        forall|i: int| 0 <= i < count_leading(s, p) ==> p(s[i]),
        count_leading(s, p) < s.len() ==> !p(s[count_leading(s, p)]),
    decreases s.len(),
{
    if s.len() == 0 || !p(s[0]) {
    } else {
        lemma_count_leading(s.skip(1), p);
        let n = count_leading(s, p);
        assert forall|i: int| 0 <= i < n implies p(s[i]) by {
            if i >= 1 {
                assert(p(s.skip(1)[i - 1]));
            }
        }
        if n < s.len() {
            assert(!p(s.skip(1)[n - 1]));
        }
    }
}

pub proof fn lemma_count_leading_is(s: Seq<char>, p: spec_fn(char) -> bool, n: int)
    requires
        0 <= n <= s.len(),
        forall|i: int| 0 <= i < n ==> p(s[i]),
        n < s.len() ==> !p(s[n]),
    ensures
        count_leading(s, p) == n,
    decreases s.len(),
{
    if n == 0 {
    } else {
        assert(p(s[0]));
        assert forall|i: int| 0 <= i < n - 1 implies p(s.skip(1)[i]) by {
            assert(p(s[i + 1]));
        }
        if n - 1 < s.skip(1).len() {
            assert(s.skip(1)[n - 1] == s[n]);
        }
        lemma_count_leading_is(s.skip(1), p, n - 1);
    }
}

pub proof fn lemma_count_trailing(s: Seq<char>, p: spec_fn(char) -> bool)
    ensures
        0 <= count_trailing(s, p) <= s.len(),
        forall|i: int| s.len() - count_trailing(s, p) <= i < s.len() ==> p(s[i]),
        count_trailing(s, p) < s.len() ==> !p(s[s.len() - count_trailing(s, p) - 1]),
    decreases s.len(),
{
    if s.len() == 0 || !p(s[s.len() - 1]) {
    } else {
        lemma_count_trailing(s.drop_last(), p);
        let n = count_trailing(s, p);
        assert forall|i: int| s.len() - n <= i < s.len() implies p(s[i]) by {
            if i < s.len() - 1 {
                assert(p(s.drop_last()[i]));
            }
        }
        if n < s.len() {
            assert(!p(s.drop_last()[s.len() - n - 1]));
        }
    }
}

pub proof fn lemma_count_trailing_is(s: Seq<char>, p: spec_fn(char) -> bool, n: int)
    requires
        0 <= n <= s.len(),
        forall|i: int| s.len() - n <= i < s.len() ==> p(s[i]),
        n < s.len() ==> !p(s[s.len() - n - 1]),
    ensures
        count_trailing(s, p) == n,
    decreases s.len(),
{
    if n == 0 {
    } else {
        assert(p(s[s.len() - 1]));
        assert forall|i: int| s.drop_last().len() - (n - 1) <= i < s.drop_last().len()
            implies p(s.drop_last()[i]) by {
            assert(s.drop_last()[i] == s[i]);
        }
        if n - 1 < s.drop_last().len() {
            assert(s.drop_last()[s.drop_last().len() - (n - 1) - 1] == s[s.len() - n - 1]);
        }
        lemma_count_trailing_is(s.drop_last(), p, n - 1);
    }
}

/// `s` with leading and trailing whitespace removed, as `str::trim` leaves it.
pub open spec fn trim_spec(s: Seq<char>) -> Seq<char> {
    let a = count_leading(s, space_pred());
    let rest = s.skip(a);
    rest.take(rest.len() - count_trailing(rest, space_pred()))
}

/// The literal `d` occurs in `s` at position `i`.
pub open spec fn occurs_at(s: Seq<char>, d: Seq<char>, i: int) -> bool {
    0 <= i && i + d.len() <= s.len() && s.subrange(i, i + d.len()) == d
}

/// The first position at or after `from` where the nonempty literal `d`
/// occurs.
pub open spec fn find_at(s: Seq<char>, d: Seq<char>, from: int) -> Option<int>
    decreases s.len() - from,
{
    if from < 0 || d.len() == 0 || from + d.len() > s.len() {
        None
    } else if occurs_at(s, d, from) {
        Some(from)
    } else {
        find_at(s, d, from + 1)
    }
}

pub proof fn lemma_find_at_none(s: Seq<char>, d: Seq<char>, from: int)
    requires
        forall|i: int| from <= i ==> !occurs_at(s, d, i),
    ensures
        find_at(s, d, from) is None,
    decreases s.len() - from,
{
    if from < 0 || d.len() == 0 || from + d.len() > s.len() {
    } else {
        lemma_find_at_none(s, d, from + 1);
    }
}

// ------------------------------------------------------------------
// Executable helpers over `Vec<char>`.
// ------------------------------------------------------------------

/// A copy of `v[from..to]`.
pub fn subvec(v: &Vec<char>, from: usize, to: usize) -> (r: Vec<char>)
    requires
        from <= to <= v@.len(),
    ensures
        r@ == v@.subrange(from as int, to as int),
{
    let mut r: Vec<char> = Vec::new();
    let mut k: usize = from;
    while k < to
        invariant
            from <= k <= to <= v@.len(),
            r@ == v@.subrange(from as int, k as int),
        decreases to - k,
    {
        r.push(v[k]);
        proof {
            assert(v@.subrange(from as int, k + 1) =~= v@.subrange(from as int, k as int).push(
                v@[k as int],
            ));
        }
        k += 1;
    }
    r
}

/// Appends `src[from..to]` to `out`.
pub fn push_range(out: &mut Vec<char>, src: &Vec<char>, from: usize, to: usize)
    requires
        from <= to <= src@.len(),
    ensures
        final(out)@ == old(out)@ + src@.subrange(from as int, to as int),
{
    let ghost base = out@;
    let mut k: usize = from;
    while k < to
        invariant
            from <= k <= to <= src@.len(),
            out@ == base + src@.subrange(from as int, k as int),
        decreases to - k,
    {
        out.push(src[k]);
        proof {
            assert(base + src@.subrange(from as int, k + 1) =~= (base + src@.subrange(
                from as int,
                k as int,
            )).push(src@[k as int]));
        }
        k += 1;
    }
    proof {
        assert(out@ =~= base + src@.subrange(from as int, to as int));
    }
}

/// The characters of `s`, in order.
pub fn to_chars(s: &str) -> (v: Vec<char>)
    ensures
        v@ == s@,
{
    let n = s.unicode_len();
    let mut v: Vec<char> = Vec::new();
    let mut i: usize = 0;
    while i < n
        invariant
            n == s@.len(),
            i <= n,
            v@ == s@.take(i as int),
        decreases n - i,
    {
        let c = s.get_char(i);
        v.push(c);
        proof {
            assert(s@.take(i + 1) =~= s@.take(i as int).push(s@[i as int]));
        }
        i += 1;
    }
    proof {
        assert(s@.take(n as int) =~= s@);
    }
    v
}

/// Relies on `String::push`: appends one character to the end of the string.
#[verifier::external_body]
fn push_char(s: &mut String, c: char)
    ensures
        final(s)@ == old(s)@.push(c),
{
    s.push(c);
}

/// A `String` holding exactly the characters of `v`.
pub fn to_string(v: &Vec<char>) -> (s: String)
    ensures
        s@ == v@,
{
    let mut s = String::new();
    let mut i: usize = 0;
    while i < v.len()
        invariant
            i <= v@.len(),
            s@ == v@.take(i as int),
        decreases v@.len() - i,
    {
        push_char(&mut s, v[i]);
        proof {
            assert(v@.take(i + 1) =~= v@.take(i as int).push(v@[i as int]));
        }
        i += 1;
    }
    proof {
        assert(v@.take(v@.len() as int) =~= v@);
    }
    s
}

/// The length of the run of plain spaces at the front of `v`.
pub fn count_leading_blanks(v: &Vec<char>) -> (n: usize)
    ensures
        n == count_leading(v@, blank_pred()),
{
    let mut i: usize = 0;
    while i < v.len()
        invariant
            i <= v@.len(),
            forall|k: int| 0 <= k < i ==> v@[k] == ' ',
        decreases v@.len() - i,
    {
        if v[i] != ' ' {
            proof {
                lemma_count_leading_is(v@, blank_pred(), i as int);
            }
            return i;
        }
        i += 1;
    }
    proof {
        lemma_count_leading_is(v@, blank_pred(), i as int);
    }
    i
}

/// The length of the run of `'#'` at the front of `v`.
pub fn count_leading_hashes(v: &Vec<char>) -> (n: usize)
    ensures
        n == count_leading(v@, hash_pred()),
{
    let mut i: usize = 0;
    while i < v.len()
        invariant
            i <= v@.len(),
            forall|k: int| 0 <= k < i ==> v@[k] == '#',
        decreases v@.len() - i,
    {
        if v[i] != '#' {
            proof {
                lemma_count_leading_is(v@, hash_pred(), i as int);
            }
            return i;
        }
        i += 1;
    }
    proof {
        lemma_count_leading_is(v@, hash_pred(), i as int);
    }
    i
}

/// The length of the run of `'-'` at the front of `v`.
pub fn count_leading_dashes(v: &Vec<char>) -> (n: usize)
    ensures
        n == count_leading(v@, dash_pred()),
{
    let mut i: usize = 0;
    while i < v.len()
        invariant
            i <= v@.len(),
            forall|k: int| 0 <= k < i ==> v@[k] == '-',
        decreases v@.len() - i,
    {
        if v[i] != '-' {
            proof {
                lemma_count_leading_is(v@, dash_pred(), i as int);
            }
            return i;
        }
        i += 1;
    }
    proof {
        lemma_count_leading_is(v@, dash_pred(), i as int);
    }
    i
}

/// The length of the run of whitespace at the front of `v`.
pub fn count_leading_spaces(v: &Vec<char>) -> (n: usize)
    ensures
        n == count_leading(v@, space_pred()),
{
    let mut i: usize = 0;
    while i < v.len()
        invariant
            i <= v@.len(),
            forall|k: int| 0 <= k < i ==> is_space_char(v@[k]),
        decreases v@.len() - i,
    {
        if !is_space(v[i]) {
            proof {
                lemma_count_leading_is(v@, space_pred(), i as int);
            }
            return i;
        }
        i += 1;
    }
    proof {
        lemma_count_leading_is(v@, space_pred(), i as int);
    }
    i
}

/// The index just past the last non-whitespace character of `v`, not below `a`.
fn trim_upper(v: &Vec<char>, a: usize) -> (b: usize)
    requires
        a <= v@.len(),
    ensures
        a <= b <= v@.len(),
        forall|i: int| b <= i < v@.len() ==> is_space_char(v@[i]),
        b > a ==> !is_space_char(v@[b - 1]),
{
    let mut b: usize = v.len();
    while b > a
        invariant
            a <= b <= v@.len(),
            forall|i: int| b <= i < v@.len() ==> is_space_char(v@[i]),
        decreases b,
    {
        if !is_space(v[b - 1]) {
            return b;
        }
        b -= 1;
    }
    b
}

/// `v` with leading and trailing whitespace removed.
pub fn trim_chars(v: &Vec<char>) -> (r: Vec<char>)
    ensures
        r@ == trim_spec(v@),
{
    let a = count_leading_spaces(v);
    proof {
        lemma_count_leading(v@, space_pred());
    }
    let b = trim_upper(v, a);
    proof {
        let rest = v@.skip(a as int);
        assert forall|i: int| rest.len() - (v@.len() - b) <= i < rest.len()
            implies space_pred()(rest[i]) by {
            assert(rest[i] == v@[a + i]);
        }
        if b > a {
            assert(rest[rest.len() - (v@.len() - b) - 1] == v@[b - 1]);
        }
        lemma_count_trailing_is(rest, space_pred(), v@.len() - b);
        assert(rest.take(rest.len() - (v@.len() - b)) =~= v@.subrange(a as int, b as int));
    }
    subvec(v, a, b)
}

/// Whether `d` occurs in `v` at position `i`.
pub fn matches_at(v: &Vec<char>, d: &Vec<char>, i: usize) -> (b: bool)
    ensures
        b == occurs_at(v@, d@, i as int),
{
    let n = v.len();
    let dl = d.len();
    if i > n || dl > n - i {
        return false;
    }
    let mut k: usize = 0;
    while k < dl
        invariant
            dl == d@.len(),
            n == v@.len(),
            i + dl <= n,
            k <= dl,
            forall|j: int| 0 <= j < k ==> v@[i + j] == d@[j],
        decreases dl - k,
    {
        if v[i + k] != d[k] {
            proof {
                assert(v@.subrange(i as int, i + d@.len())[k as int] == v@[i + k]);
            }
            return false;
        }
        k += 1;
    }
    proof {
        assert(v@.subrange(i as int, i + d@.len()) =~= d@);
    }
    true
}

/// The first position at or after `from` where `d` occurs in `v`.
pub fn find_at_exec(v: &Vec<char>, d: &Vec<char>, from: usize) -> (r: Option<usize>)
    ensures
        match r {
            Some(i) => {
                &&& find_at(v@, d@, from as int) == Some(i as int)
                &&& from <= i
                &&& occurs_at(v@, d@, i as int)
            },
            None => find_at(v@, d@, from as int) is None,
        },
{
    let n = v.len();
    let dl = d.len();
    if dl == 0 || from > n {
        return None;
    }
    let mut i: usize = from;
    loop
        invariant
            n == v@.len(),
            dl == d@.len(),
            1 <= dl,
            from <= i <= n,
            find_at(v@, d@, from as int) == find_at(v@, d@, i as int),
        decreases n - i,
    {
        if dl > n - i {
            return None;
        }
        if matches_at(v, d, i) {
            return Some(i);
        }
        i += 1;
    }
}

} // verus!
