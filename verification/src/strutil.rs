//! Verified character and string helpers: equality, prefixes, ASCII
//! lowercasing, trimming, lexicographic order, and decimal rendering.

use vstd::prelude::*;
use vstd::string::StrSliceExecFns;
use vstd::string::StringExecFns;

verus! {

broadcast use vstd::utf8::char_u32_cast;

/// Relies on char::from_u32: for a code point below the surrogate range it
/// returns the character with that code point.
#[verifier::external_body]
pub fn char_from_u32(x: u32) -> (r: char)
    requires
        x < 0xD800,
    ensures
        r == (x as char),
{
    char::from_u32(x).unwrap_or(' ')
}

/// Relies on String::push: appends exactly the given character.
#[verifier::external_body]
pub fn push_char(s: &mut String, c: char)
    ensures
        final(s)@ == old(s)@.push(c),
{
    s.push(c);
}

/// Whether two string slices hold the same characters.
pub fn str_eq(a: &str, b: &str) -> (r: bool)
    ensures
        r == (a@ == b@),
{
    let x = a.to_owned();
    let y = b.to_owned();
    x == y
}

/// Whether `s` starts with `prefix`.
pub fn str_starts_with(s: &str, prefix: &str) -> (r: bool)
    ensures
        r == prefix@.is_prefix_of(s@),
{
    let n = prefix.unicode_len();
    let m = s.unicode_len();
    if n > m {
        return false;
    }
    let mut i: usize = 0;
    while i < n
        invariant
            i <= n,
            n == prefix@.len(),
            m == s@.len(),
            n <= m,
            forall|j: int| 0 <= j < i ==> s@[j] == prefix@[j],
        decreases n - i,
    {
        if s.get_char(i) != prefix.get_char(i) {
            proof {
                assert(s@.subrange(0, n as int)[i as int] != prefix@[i as int]);
            }
            return false;
        }
        i = i + 1;
    }
    proof {
        assert(prefix@ =~= s@.subrange(0, n as int));
    }
    true
}

/// The lower-case form of an ASCII letter; any other character unchanged.
pub open spec fn lower_char_spec(c: char) -> char {
    if 'A' <= c && c <= 'Z' {
        ((c as u32) + 32) as char
    } else {
        c
    }
}

/// Each character lowered.
pub open spec fn lower_seq(s: Seq<char>) -> Seq<char> {
    Seq::new(s.len(), |i: int| lower_char_spec(s[i]))
}

/// The lower-case form of one character.
pub fn lower_char(c: char) -> (r: char)
    ensures
        r == lower_char_spec(c),
{
    if 'A' <= c && c <= 'Z' {
        let cu: u32 = c as u32;
        char_from_u32(cu + 32)
    } else {
        c
    }
}

/// The string with every ASCII letter lowered.
pub fn ascii_lower(s: &str) -> (r: String)
    ensures
        r@ == lower_seq(s@),
{
    let n = s.unicode_len();
    let mut out = String::new();
    let mut i: usize = 0;
    while i < n
        invariant
            i <= n,
            n == s@.len(),
            out@.len() == i,
            forall|j: int| 0 <= j < i ==> out@[j] == lower_char_spec(s@[j]),
        decreases n - i,
    {
        let c = lower_char(s.get_char(i));
        push_char(&mut out, c);
        i = i + 1;
    }
    proof {
        assert(out@ =~= lower_seq(s@));
    }
    out
}

/// Strict lexicographic order on character sequences, by code point.
pub open spec fn lex_lt(a: Seq<char>, b: Seq<char>) -> bool
    decreases a.len(),
{
    if b.len() == 0 {
        false
    } else if a.len() == 0 {
        true
    } else if a[0] != b[0] {
        (a[0] as u32) < (b[0] as u32)
    } else {
        lex_lt(a.drop_first(), b.drop_first())
    }
}

/// The order is strict: at most one direction holds, and neither holds
/// exactly on equal sequences.
pub proof fn lemma_lex_strict(a: Seq<char>, b: Seq<char>)
    ensures
        !(lex_lt(a, b) && lex_lt(b, a)),
        (!lex_lt(a, b) && !lex_lt(b, a)) <==> a == b,
    decreases a.len(),
{
    if a.len() == 0 || b.len() == 0 {
        if !lex_lt(a, b) && !lex_lt(b, a) {
            assert(a =~= b);
        }
    } else {
        lemma_lex_strict(a.drop_first(), b.drop_first());
        vstd::utf8::char_u32_cast(a[0], a[0] as u32);
        vstd::utf8::char_u32_cast(b[0], b[0] as u32);
        if !lex_lt(a, b) && !lex_lt(b, a) {
            assert(a[0] == b[0]);
            assert(a.drop_first() == b.drop_first());
            assert forall|i: int| 0 <= i < a.len() implies a[i] == b[i] by {
                if i > 0 {
                    assert(a.drop_first()[i - 1] == a[i]);
                    assert(b.drop_first()[i - 1] == b[i]);
                }
            }
            assert(a =~= b);
        }
        if a == b {
            assert(a.drop_first() == b.drop_first());
        }
    }
}

/// The order is transitive.
pub proof fn lemma_lex_transitive(a: Seq<char>, b: Seq<char>, c: Seq<char>)
    requires
        lex_lt(a, b),
        lex_lt(b, c),
    ensures
        lex_lt(a, c),
    decreases a.len(),
{
    if a.len() == 0 || b.len() == 0 || c.len() == 0 {
    } else {
        if a[0] == b[0] && b[0] == c[0] {
            lemma_lex_transitive(a.drop_first(), b.drop_first(), c.drop_first());
        }
    }
}

/// Whether `a` precedes `b` lexicographically.
pub fn str_lt(a: &str, b: &str) -> (r: bool)
    ensures
        r == lex_lt(a@, b@),
{
    let n = a.unicode_len();
    let m = b.unicode_len();
    proof {
        assert(a@.skip(0) =~= a@);
        assert(b@.skip(0) =~= b@);
    }
    let mut i: usize = 0;
    while i < n && i < m
        invariant
            i <= n,
            i <= m,
            n == a@.len(),
            m == b@.len(),
            forall|j: int| 0 <= j < i ==> a@[j] == b@[j],
            lex_lt(a@, b@) == lex_lt(a@.skip(i as int), b@.skip(i as int)),
        decreases n - i,
    {
        let ca = a.get_char(i);
        let cb = b.get_char(i);
        if ca != cb {
            proof {
                assert(a@.skip(i as int)[0] == a@[i as int]);
                assert(b@.skip(i as int)[0] == b@[i as int]);
            }
            return (ca as u32) < (cb as u32);
        }
        i = i + 1;
        proof {
            let ai = a@.skip(i as int - 1);
            let bi = b@.skip(i as int - 1);
            assert(ai[0] == bi[0]);
            assert(ai.drop_first() =~= a@.skip(i as int));
            assert(bi.drop_first() =~= b@.skip(i as int));
        }
    }
    proof {
        if i == m {
            assert(b@.skip(i as int).len() == 0);
        } else {
            assert(a@.skip(i as int).len() == 0);
            assert(b@.skip(i as int).len() > 0);
        }
    }
    n < m
}

/// Whether the character is ASCII whitespace.
pub open spec fn is_ascii_space(c: char) -> bool {
    c == ' ' || c == '\t' || c == '\r' || c == '\n'
}

/// The count of leading whitespace characters.
pub open spec fn leading_spaces(s: Seq<char>) -> int
    decreases s.len(),
{
    if s.len() == 0 || !is_ascii_space(s[0]) {
        0
    } else {
        1 + leading_spaces(s.drop_first())
    }
}

/// The count of trailing whitespace characters.
pub open spec fn trailing_spaces(s: Seq<char>) -> int
    decreases s.len(),
{
    if s.len() == 0 || !is_ascii_space(s.last()) {
        0
    } else {
        1 + trailing_spaces(s.drop_last())
    }
}

/// The sequence with leading and trailing ASCII whitespace removed.
pub open spec fn trim_spec(s: Seq<char>) -> Seq<char> {
    if leading_spaces(s) == s.len() {
        Seq::empty()
    } else {
        s.subrange(leading_spaces(s), s.len() - trailing_spaces(s))
    }
}

/// `leading_spaces` is determined by the first non-space position.
proof fn lemma_leading_spaces(s: Seq<char>, b: int)
    requires
        0 <= b <= s.len(),
        forall|j: int| 0 <= j < b ==> is_ascii_space(s[j]),
        b < s.len() ==> !is_ascii_space(s[b]),
    ensures
        leading_spaces(s) == b,
    decreases s.len(),
{
    if s.len() > 0 && b > 0 {
        let rest = s.drop_first();
        assert forall|j: int| 0 <= j < b - 1 implies is_ascii_space(rest[j]) by {
            assert(rest[j] == s[j + 1]);
        }
        lemma_leading_spaces(rest, b - 1);
    }
}

/// `trailing_spaces` is determined by the last non-space position.
proof fn lemma_trailing_spaces(s: Seq<char>, e: int)
    requires
        0 <= e <= s.len(),
        forall|j: int| e <= j < s.len() ==> is_ascii_space(s[j]),
        e > 0 ==> !is_ascii_space(s[e - 1]),
    ensures
        trailing_spaces(s) == s.len() - e,
    decreases s.len(),
{
    if s.len() > 0 && e < s.len() {
        let rest = s.drop_last();
        assert forall|j: int| e <= j < rest.len() implies is_ascii_space(rest[j]) by {
            assert(rest[j] == s[j]);
        }
        lemma_trailing_spaces(rest, e);
    }
}

/// The slice with leading and trailing ASCII whitespace removed.
pub fn trim_ascii(s: &str) -> (r: &str)
    ensures
        r@ == trim_spec(s@),
{
    let n = s.unicode_len();
    let mut b: usize = 0;
    while b < n
        invariant
            b <= n,
            n == s@.len(),
            forall|j: int| 0 <= j < b ==> is_ascii_space(s@[j]),
        ensures
            b <= n,
            n == s@.len(),
            forall|j: int| 0 <= j < b ==> is_ascii_space(s@[j]),
            b < n ==> !is_ascii_space(s@[b as int]),
        decreases n - b,
    {
        let c = s.get_char(b);
        if !(c == ' ' || c == '\t' || c == '\r' || c == '\n') {
            break;
        }
        b = b + 1;
    }
    proof {
        lemma_leading_spaces(s@, b as int);
    }
    if b == n {
        let r = s.substring_char(0, 0);
        proof {
            assert(r@ =~= trim_spec(s@));
        }
        return r;
    }
    let mut e: usize = n;
    while e > b
        invariant
            b <= e <= n,
            n == s@.len(),
            b < n,
            !is_ascii_space(s@[b as int]),
            forall|j: int| e <= j < n ==> is_ascii_space(s@[j]),
        ensures
            b <= e <= n,
            n == s@.len(),
            forall|j: int| e <= j < n ==> is_ascii_space(s@[j]),
            e > b ==> !is_ascii_space(s@[e - 1]),
        decreases e,
    {
        let c = s.get_char(e - 1);
        if !(c == ' ' || c == '\t' || c == '\r' || c == '\n') {
            break;
        }
        e = e - 1;
    }
    proof {
        if e == b {
            assert(!is_ascii_space(s@[b as int]));
        }
        lemma_trailing_spaces(s@, e as int);
    }
    s.substring_char(b, e)
}

/// The index of the first occurrence of `c`, if any.
pub open spec fn find_first(s: Seq<char>, c: char) -> Option<int>
    decreases s.len(),
{
    if s.len() == 0 {
        None
    } else if s[0] == c {
        Some(0int)
    } else {
        match find_first(s.drop_first(), c) {
            Some(i) => Some(i + 1),
            None => None,
        }
    }
}

/// `find_first` returns the first occurrence, or nothing when the
/// character is absent.
pub proof fn lemma_find_first(s: Seq<char>, c: char)
    ensures
        find_first(s, c) matches Some(i) ==> 0 <= i < s.len() && s[i] == c
            && (forall|j: int| 0 <= j < i ==> s[j] != c),
        find_first(s, c) is None ==> (forall|j: int| 0 <= j < s.len() ==> s[j] != c),
    decreases s.len(),
{
    if s.len() == 0 || s[0] == c {
    } else {
        let rest = s.drop_first();
        lemma_find_first(rest, c);
        assert forall|j: int| 0 <= j < s.len() && s[j] == c implies j >= 1
            && rest[j - 1] == c by {
            assert(rest[j - 1] == s[j]);
        }
        match find_first(rest, c) {
            Some(i) => {
                assert(s[i + 1] == rest[i]);
                assert forall|j: int| 0 <= j < i + 1 implies s[j] != c by {
                    if j > 0 {
                        assert(rest[j - 1] == s[j]);
                    }
                }
            },
            None => {
                assert forall|j: int| 0 <= j < s.len() implies s[j] != c by {
                    if j > 0 {
                        assert(rest[j - 1] == s[j]);
                    }
                }
            },
        }
    }
}

/// The index of the first occurrence of `c` in `s`, if any.
pub fn str_find_char(s: &str, c: char) -> (r: Option<usize>)
    ensures
        match r {
            Some(i) => find_first(s@, c) == Some(i as int),
            None => find_first(s@, c) is None,
        },
{
    proof {
        lemma_find_first(s@, c);
    }
    let n = s.unicode_len();
    let mut i: usize = 0;
    while i < n
        invariant
            i <= n,
            n == s@.len(),
            forall|j: int| 0 <= j < i ==> s@[j] != c,
        decreases n - i,
    {
        if s.get_char(i) == c {
            proof {
                lemma_find_first(s@, c);
                let i0 = find_first(s@, c)->Some_0;
                if i0 < i as int {
                    assert(s@[i0] == c);
                }
            }
            return Some(i);
        }
        i = i + 1;
    }
    None
}

/// Whether `sub` occurs in `s` starting at position `i`.
pub open spec fn occurs_at(s: Seq<char>, sub: Seq<char>, i: int) -> bool {
    0 <= i && i + sub.len() <= s.len() && sub == s.subrange(i, i + sub.len())
}

/// Whether `sub` occurs anywhere in `s`.
pub open spec fn has_substr(s: Seq<char>, sub: Seq<char>) -> bool {
    exists|i: int| occurs_at(s, sub, i)
}

/// Whether `s` contains `sub`.
pub fn str_contains(s: &str, sub: &str) -> (r: bool)
    ensures
        r == has_substr(s@, sub@),
{
    let n = s.unicode_len();
    let m = sub.unicode_len();
    if m > n {
        return false;
    }
    if m == 0 {
        proof {
            assert(sub@ =~= s@.subrange(0, 0));
            assert(occurs_at(s@, sub@, 0));
        }
        return true;
    }
    let mut i: usize = 0;
    while i <= n - m
        invariant
            0 < m <= n,
            n == s@.len(),
            m == sub@.len(),
            i <= n - m + 1,
            forall|t: int| 0 <= t < i ==> !occurs_at(s@, sub@, t),
        decreases n - i,
    {
        let mut j: usize = 0;
        let mut matched = true;
        while j < m
            invariant_except_break
                matched,
            invariant
                j <= m,
                i + m <= n,
                n == s@.len(),
                m == sub@.len(),
                forall|t: int| 0 <= t < j ==> s@[i + t] == sub@[t],
            ensures
                j <= m,
                matched ==> forall|t: int| 0 <= t < j ==> s@[i + t] == sub@[t],
                matched ==> j == m,
                !matched ==> exists|t: int| 0 <= t < m && s@[i + t] != sub@[t],
            decreases m - j,
        {
            if s.get_char(i + j) != sub.get_char(j) {
                matched = false;
                proof {
                    let tj = j as int;
                    assert(0 <= tj < m && s@[i + tj] != sub@[tj]);
                }
                break;
            }
            j = j + 1;
        }
        if matched {
            proof {
                assert(sub@ =~= s@.subrange(i as int, i as int + sub@.len()));
                assert(occurs_at(s@, sub@, i as int));
            }
            return true;
        }
        proof {
            let t = choose|t: int| 0 <= t < m && s@[i + t] != sub@[t];
            if occurs_at(s@, sub@, i as int) {
                assert(s@.subrange(i as int, i as int + sub@.len())[t] == s@[i + t]);
            }
        }
        i = i + 1;
    }
    proof {
        if has_substr(s@, sub@) {
            let w = choose|w: int| occurs_at(s@, sub@, w);
            assert(w <= n - m);
        }
    }
    false
}

/// The decimal digit character for a value below ten.
pub open spec fn digit_char(d: int) -> char {
    ((48 + d) as u32) as char
}

/// The decimal rendering of a number, most significant digit first.
pub open spec fn dec_rep(n: nat) -> Seq<char>
    decreases n,
{
    if n < 10 {
        seq![digit_char(n as int)]
    } else {
        dec_rep(n / 10) + seq![digit_char((n % 10) as int)]
    }
}

/// The decimal rendering of a number.
pub fn usize_to_string(n: usize) -> (r: String)
    ensures
        r@ == dec_rep(n as nat),
    decreases n,
{
    if n < 10 {
        let c = char_from_u32(48 + n as u32);
        let mut out = String::new();
        push_char(&mut out, c);
        proof {
            assert(out@ =~= dec_rep(n as nat));
        }
        out
    } else {
        proof {
            assert(n / 10 < n && n % 10 < 10) by (nonlinear_arith)
                requires
                    n >= 10,
            ;
        }
        let q = n / 10;
        let d = n % 10;
        let mut out = usize_to_string(q);
        let c = char_from_u32(48 + d as u32);
        push_char(&mut out, c);
        proof {
            assert(out@ =~= dec_rep(n as nat));
        }
        out
    }
}

} // verus!
