//! Character-level string operations shared by the rest of the library.
//!
//! Strings are handled as `Vec<char>` inside the library so that every
//! operation can be stated over the `Seq<char>` view of the text.

use vstd::prelude::*;

verus! {

// ───────────────────────── conversions (std) ─────────────────────────

/// The characters of `s`, in order.
pub fn chars_of(s: &str) -> (v: Vec<char>)
    ensures
        v@ == s@,
{
    broadcast use vstd::string::axiom_spec_iter;
    let mut v: Vec<char> = Vec::new();
    for c in it: s.chars()
        invariant
            v@.len() == it.index(),
            forall|i: int| 0 <= i < v@.len() ==> v@[i] == it.seq()[i],
    {
        v.push(c);
    }
    assert(v@ =~= s@);
    v
}

/// The string made of the characters of `v` (`String: FromIterator<char>`).
#[verifier::external_body]
pub fn string_of(v: &Vec<char>) -> (s: String)
    ensures
        s@ == v@,
{
    v.iter().collect()
}

/// The texts of a list of strings.
pub open spec fn strs(v: Seq<String>) -> Seq<Seq<char>> {
    v.map_values(|s: String| s@)
}

/// The texts of a list of string pairs.
pub open spec fn pairs_view(v: Seq<(String, String)>) -> Seq<(Seq<char>, Seq<char>)> {
    v.map_values(|p: (String, String)| (p.0@, p.1@))
}

/// An owned copy of `s`.
pub fn copy_str(s: &str) -> (r: String)
    ensures
        r@ == s@,
{
    let v = chars_of(s);
    string_of(&v)
}

/// An owned copy of a list of strings.
pub fn copy_strings(v: &Vec<String>) -> (r: Vec<String>)
    ensures
        strs(r@) == strs(v@),
        r@.len() == v@.len(),
{
    let mut r: Vec<String> = Vec::new();
    let mut i: usize = 0;
    while i < v.len()
        invariant
            i <= v.len(),
            r@.len() == i,
            strs(r@) == strs(v@).take(i as int),
        decreases v.len() - i,
    {
        let ghost before = strs(r@);
        r.push(copy_str(v[i].as_str()));
        assert(strs(r@) =~= before.push(v@[i as int]@));
        assert(strs(r@) =~= strs(v@).take(i + 1));
        i += 1;
    }
    assert(strs(v@).take(i as int) =~= strs(v@));
    r
}

/// What `str::to_lowercase` returns for a string with these characters.
pub uninterp spec fn unicode_lowercase(s: Seq<char>) -> Seq<char>;

/// `str::to_lowercase`: the full Unicode lowercase mapping of `s`, which
/// depends on `s` alone. The mapping itself (Unicode's case tables) is not
/// restated here; the result is only tied to its argument by name.
#[verifier::external_body]
pub fn to_lowercase(s: &str) -> (r: String)
    ensures
        r@ == unicode_lowercase(s@),
{
    s.to_lowercase()
}

// ───────────────────────── character classes ─────────────────────────

/// Unicode `White_Space`, the set `char::is_whitespace` accepts.
pub open spec fn is_ws(c: char) -> bool {
    let u = c as u32;
    ||| 0x09 <= u <= 0x0d
    ||| u == 0x20
    ||| u == 0x85
    ||| u == 0xa0
    ||| u == 0x1680
    ||| 0x2000 <= u <= 0x200a
    ||| u == 0x2028
    ||| u == 0x2029
    ||| u == 0x202f
    ||| u == 0x205f
    ||| u == 0x3000
}

pub fn is_whitespace(c: char) -> (b: bool)
    ensures
        b == is_ws(c),
{
    let u = c as u32;
    (0x09 <= u && u <= 0x0d) || u == 0x20 || u == 0x85 || u == 0xa0 || u == 0x1680 || (0x2000 <= u
        && u <= 0x200a) || u == 0x2028 || u == 0x2029 || u == 0x202f || u == 0x205f || u == 0x3000
}

pub open spec fn is_ascii_alnum(c: char) -> bool {
    ('0' <= c && c <= '9') || ('a' <= c && c <= 'z') || ('A' <= c && c <= 'Z')
}

pub open spec fn ascii_upper(c: char) -> char {
    if 'a' <= c && c <= 'z' {
        ((c as u32) - 32) as char
    } else {
        c
    }
}

pub fn is_ascii_alphanumeric(c: char) -> (b: bool)
    ensures
        b == is_ascii_alnum(c),
{
    ('0' <= c && c <= '9') || ('a' <= c && c <= 'z') || ('A' <= c && c <= 'Z')
}

pub fn to_ascii_upper(c: char) -> (r: char)
    ensures
        r == ascii_upper(c),
{
    if 'a' <= c && c <= 'z' {
        let u = (c as u32) - 32;
        let r = char_from_ascii(u);
        r
    } else {
        c
    }
}

fn char_from_ascii(u: u32) -> (c: char)
    requires
        u < 128,
    ensures
        c == u as char,
{
    let b = u as u8;
    let c = b as char;
    assert(b == u);
    c
}

// ───────────────────────── trimming ─────────────────────────

pub open spec fn trim_start(s: Seq<char>) -> Seq<char>
    decreases s.len(),
{
    if s.len() > 0 && is_ws(s[0]) {
        trim_start(s.drop_first())
    } else {
        s
    }
}

pub open spec fn trim_end(s: Seq<char>) -> Seq<char>
    decreases s.len(),
{
    if s.len() > 0 && is_ws(s.last()) {
        trim_end(s.drop_last())
    } else {
        s
    }
}

/// `str::trim`: whitespace removed from both ends.
pub open spec fn trim(s: Seq<char>) -> Seq<char> {
    trim_end(trim_start(s))
}

pub proof fn lemma_trim_start_skip(s: Seq<char>, k: int)
    requires
        0 <= k <= s.len(),
        forall|j: int| 0 <= j < k ==> is_ws(#[trigger] s[j]),
        k == s.len() || !is_ws(s[k]),
    ensures
        trim_start(s) == s.skip(k),
    decreases k,
{
    if k == 0 {
        assert(s.skip(0) =~= s);
    } else {
        let t = s.drop_first();
        assert forall|j: int| 0 <= j < k - 1 implies is_ws(#[trigger] t[j]) by {
            assert(t[j] == s[j + 1]);
        }
        if k - 1 < t.len() {
            assert(t[k - 1] == s[k]);
        }
        lemma_trim_start_skip(t, k - 1);
        assert(t.skip(k - 1) =~= s.skip(k));
    }
}

pub proof fn lemma_trim_end_take(s: Seq<char>, k: int)
    requires
        0 <= k <= s.len(),
        forall|j: int| k <= j < s.len() ==> is_ws(#[trigger] s[j]),
        k == 0 || !is_ws(s[k - 1]),
    ensures
        trim_end(s) == s.take(k),
    decreases s.len() - k,
{
    if k == s.len() {
        assert(s.take(k) =~= s);
    } else {
        let t = s.drop_last();
        assert forall|j: int| k <= j < t.len() implies is_ws(#[trigger] t[j]) by {
            assert(t[j] == s[j]);
        }
        if k > 0 {
            assert(t[k - 1] == s[k - 1]);
        }
        assert(is_ws(s[s.len() - 1]));
        lemma_trim_end_take(t, k);
        assert(t.take(k) =~= s.take(k));
    }
}

/// The whitespace-trimmed copy of `v`.
pub fn trim_chars(v: &Vec<char>) -> (r: Vec<char>)
    ensures
        r@ == trim(v@),
{
    let n = v.len();
    let mut a: usize = 0;
    while a < n && is_whitespace(v[a])
        invariant
            n == v.len(),
            a <= n,
            forall|j: int| 0 <= j < a ==> is_ws(#[trigger] v@[j]),
        decreases n - a,
    {
        a += 1;
    }
    proof {
        lemma_trim_start_skip(v@, a as int);
    }
    let ghost t = v@.skip(a as int);
    let mut b: usize = n;
    while b > a && is_whitespace(v[b - 1])
        invariant
            n == v.len(),
            a <= b <= n,
            forall|j: int| b <= j < n ==> is_ws(#[trigger] v@[j]),
        decreases b,
    {
        b -= 1;
    }
    proof {
        assert forall|j: int| b - a <= j < t.len() implies is_ws(#[trigger] t[j]) by {
            assert(t[j] == v@[j + a]);
        }
        if b > a {
            assert(t[b - a - 1] == v@[b - 1]);
        }
        lemma_trim_end_take(t, (b - a) as int);
    }
    let r = copy_range(v, a, b);
    assert(r@ =~= t.take((b - a) as int));
    r
}

/// `v[from..to]` as a new vector.
pub fn copy_range(v: &Vec<char>, from: usize, to: usize) -> (r: Vec<char>)
    requires
        from <= to <= v.len(),
    ensures
        r@ == v@.subrange(from as int, to as int),
{
    let mut r: Vec<char> = Vec::new();
    let mut i = from;
    while i < to
        invariant
            from <= i <= to <= v.len(),
            r@ == v@.subrange(from as int, i as int),
        decreases to - i,
    {
        r.push(v[i]);
        assert(r@ =~= v@.subrange(from as int, i + 1));
        i += 1;
    }
    r
}

/// Append all of `w` to `out`.
pub fn append_chars(out: &mut Vec<char>, w: &Vec<char>)
    ensures
        final(out)@ == old(out)@ + w@,
{
    let mut i: usize = 0;
    let ghost start = out@;
    while i < w.len()
        invariant
            i <= w.len(),
            out@ == start + w@.take(i as int),
        decreases w.len() - i,
    {
        out.push(w[i]);
        assert(w@.take(i + 1) =~= w@.take(i as int).push(w@[i as int]));
        i += 1;
    }
    assert(w@.take(w.len() as int) =~= w@);
}

/// Element-wise equality of two character vectors.
pub fn chars_eq(a: &Vec<char>, b: &Vec<char>) -> (r: bool)
    ensures
        r == (a@ == b@),
{
    if a.len() != b.len() {
        return false;
    }
    let mut i: usize = 0;
    while i < a.len()
        invariant
            a.len() == b.len(),
            i <= a.len(),
            forall|j: int| 0 <= j < i ==> a@[j] == b@[j],
        decreases a.len() - i,
    {
        if a[i] != b[i] {
            return false;
        }
        i += 1;
    }
    assert(a@ =~= b@);
    true
}

/// Equality of two strings by their characters.
pub fn str_eq(a: &str, b: &str) -> (r: bool)
    ensures
        r == (a@ == b@),
{
    let x = chars_of(a);
    let y = chars_of(b);
    chars_eq(&x, &y)
}

// ───────────────────────── prefixes and substrings ─────────────────────────

pub open spec fn occurs_at(s: Seq<char>, p: Seq<char>, i: int) -> bool {
    0 <= i && i + p.len() <= s.len() && s.subrange(i, i + p.len()) == p
}

/// `s` contains `p` as a contiguous substring (`str::contains`).
pub open spec fn has_sub(s: Seq<char>, p: Seq<char>) -> bool {
    exists|i: int| occurs_at(s, p, i)
}

/// Whether `p` occurs in `s` starting at index `i`.
pub fn matches_at(s: &Vec<char>, p: &Vec<char>, i: usize) -> (r: bool)
    ensures
        r == occurs_at(s@, p@, i as int),
{
    if i > s.len() || p.len() > s.len() - i {
        return false;
    }
    let mut k: usize = 0;
    while k < p.len()
        invariant
            i + p.len() <= s.len(),
            k <= p.len(),
            forall|j: int| 0 <= j < k ==> s@[i + j] == p@[j],
        decreases p.len() - k,
    {
        if s[i + k] != p[k] {
            assert(s@.subrange(i as int, i + p.len())[k as int] != p@[k as int]);
            return false;
        }
        k += 1;
    }
    assert(s@.subrange(i as int, i + p.len()) =~= p@);
    true
}

pub fn starts_with(s: &Vec<char>, p: &Vec<char>) -> (r: bool)
    ensures
        r == p@.is_prefix_of(s@),
{
    let r = matches_at(s, p, 0);
    proof {
        if r {
            assert forall|j: int| 0 <= j < p@.len() implies p@[j] == s@[j] by {
                assert(s@.subrange(0, p@.len() as int)[j] == s@[j]);
            }
        } else if p@.is_prefix_of(s@) {
            assert(s@.subrange(0, p@.len() as int) =~= p@);
        }
    }
    r
}

pub fn ends_with(s: &Vec<char>, p: &Vec<char>) -> (r: bool)
    ensures
        r == p@.is_suffix_of(s@),
{
    if p.len() > s.len() {
        return false;
    }
    let r = matches_at(s, p, s.len() - p.len());
    proof {
        let off = s@.len() - p@.len();
        if r {
            assert forall|j: int| 0 <= j < p@.len() implies p@[j] == s@[off + j] by {
                assert(s@.subrange(off, off + p@.len())[j] == s@[off + j]);
            }
        } else if p@.is_suffix_of(s@) {
            assert(s@.subrange(off, off + p@.len()) =~= p@);
        }
    }
    r
}

/// Whether `p` occurs anywhere in `s`.
pub fn contains(s: &Vec<char>, p: &Vec<char>) -> (r: bool)
    ensures
        r == has_sub(s@, p@),
{
    if p.len() > s.len() {
        return false;
    }
    let last = s.len() - p.len();
    let mut i: usize = 0;
    while i <= last
        invariant
            last == s.len() - p.len(),
            i <= last + 1,
            forall|j: int| 0 <= j < i ==> !occurs_at(s@, p@, j),
        decreases last + 1 - i,
    {
        if matches_at(s, p, i) {
            return true;
        }
        if i == last {
            return false;
        }
        i += 1;
    }
    false
}

// ───────────────────────── replacement ─────────────────────────

/// `str::replace(s, p, r)` for a non-empty pattern: every non-overlapping
/// occurrence of `p`, scanning left to right, replaced by `r`.
pub open spec fn replace_all(s: Seq<char>, p: Seq<char>, r: Seq<char>) -> Seq<char>
    decreases s.len(),
{
    if p.len() == 0 || s.len() == 0 {
        s
    } else if p.is_prefix_of(s) {
        r + replace_all(s.skip(p.len() as int), p, r)
    } else {
        seq![s[0]] + replace_all(s.drop_first(), p, r)
    }
}

pub proof fn lemma_replace_absent(s: Seq<char>, p: Seq<char>, r: Seq<char>)
    requires
        !has_sub(s, p),
    ensures
        replace_all(s, p, r) == s,
    decreases s.len(),
{
    if p.len() == 0 || s.len() == 0 {
    } else {
        if p.is_prefix_of(s) {
            assert(s.subrange(0, p.len() as int) =~= p);
            assert(occurs_at(s, p, 0));
        }
        let t = s.drop_first();
        assert forall|i: int| !occurs_at(t, p, i) by {
            if occurs_at(t, p, i) {
                assert(s.subrange(i + 1, i + 1 + p.len()) =~= t.subrange(i, i + p.len()));
                assert(occurs_at(s, p, i + 1));
            }
        }
        lemma_replace_absent(t, p, r);
        assert(seq![s[0]] + t =~= s);
    }
}

pub proof fn lemma_prefix_occurs(s: Seq<char>, p: Seq<char>)
    ensures
        p.is_prefix_of(s) == occurs_at(s, p, 0),
{
    if p.is_prefix_of(s) {
        assert(s.subrange(0, p.len() as int) =~= p);
    }
    if occurs_at(s, p, 0) {
        assert forall|j: int| 0 <= j < p.len() implies p[j] == s[j] by {
            assert(s.subrange(0, p.len() as int)[j] == s[j]);
        }
    }
}

/// Every non-overlapping occurrence of `p` in `s` replaced by `r`.
pub fn replace_chars(s: &Vec<char>, p: &Vec<char>, r: &Vec<char>) -> (out: Vec<char>)
    requires
        p.len() > 0,
    ensures
        out@ == replace_all(s@, p@, r@),
{
    let mut out: Vec<char> = Vec::new();
    let mut i: usize = 0;
    assert(s@.skip(0) =~= s@);
    assert(out@ + replace_all(s@, p@, r@) =~= replace_all(s@, p@, r@));
    while i < s.len()
        invariant
            p.len() > 0,
            i <= s.len(),
            out@ + replace_all(s@.skip(i as int), p@, r@) == replace_all(s@, p@, r@),
        decreases s.len() - i,
    {
        let ghost rest = s@.skip(i as int);
        let m = matches_at(s, p, i);
        proof {
            lemma_prefix_occurs(rest, p@);
            if occurs_at(rest, p@, 0) {
                assert(rest.subrange(0, p@.len() as int) =~= s@.subrange(i as int, i + p@.len()));
            }
            if occurs_at(s@, p@, i as int) {
                assert(rest.subrange(0, p@.len() as int) =~= s@.subrange(i as int, i + p@.len()));
            }
        }
        if m {
            let ghost before = out@;
            append_chars(&mut out, r);
            proof {
                assert(rest.skip(p@.len() as int) =~= s@.skip(i + p@.len()));
                assert(before + replace_all(rest, p@, r@) == before + (r@ + replace_all(
                    s@.skip(i + p@.len()),
                    p@,
                    r@,
                )));
                assert(before + (r@ + replace_all(s@.skip(i + p@.len()), p@, r@)) =~= out@
                    + replace_all(s@.skip(i + p@.len()), p@, r@));
            }
            i += p.len();
        } else {
            let ghost before = out@;
            out.push(s[i]);
            proof {
                assert(rest.drop_first() =~= s@.skip(i + 1));
                assert(rest[0] == s@[i as int]);
                assert(before + (seq![s@[i as int]] + replace_all(s@.skip(i + 1), p@, r@))
                    =~= out@ + replace_all(s@.skip(i + 1), p@, r@));
            }
            i += 1;
        }
    }
    proof {
        assert(s@.skip(i as int).len() == 0);
        assert(out@ + s@.skip(i as int) =~= out@);
    }
    out
}

// ───────────────────────── words ─────────────────────────

/// End (exclusive) of the run of non-whitespace characters starting at `i`.
pub open spec fn word_end(s: Seq<char>, i: int) -> int
    decreases s.len() - i,
{
    if 0 <= i < s.len() && !is_ws(s[i]) {
        word_end(s, i + 1)
    } else {
        i
    }
}

pub proof fn lemma_word_end(s: Seq<char>, i: int)
    requires
        0 <= i <= s.len(),
    ensures
        i <= word_end(s, i) <= s.len(),
        forall|j: int| i <= j < word_end(s, i) ==> !is_ws(#[trigger] s[j]),
        word_end(s, i) == s.len() || is_ws(s[word_end(s, i)]),
    decreases s.len() - i,
{
    if i < s.len() && !is_ws(s[i]) {
        lemma_word_end(s, i + 1);
    }
}

/// The whitespace-separated words of `s` from index `i` on
/// (`str::split_whitespace`).
pub open spec fn words_from(s: Seq<char>, i: int) -> Seq<Seq<char>>
    decreases s.len() - i,
{
    if i < 0 || i >= s.len() {
        seq![]
    } else if is_ws(s[i]) {
        words_from(s, i + 1)
    } else {
        let e = word_end(s, i + 1);
        proof {
            lemma_word_end(s, i + 1);
        }
        seq![s.subrange(i, e)] + words_from(s, e)
    }
}

pub open spec fn words(s: Seq<char>) -> Seq<Seq<char>> {
    words_from(s, 0)
}

pub open spec fn views(v: Seq<Vec<char>>) -> Seq<Seq<char>> {
    v.map_values(|w: Vec<char>| w@)
}

/// The whitespace-separated words of `s`.
pub fn split_words(s: &Vec<char>) -> (out: Vec<Vec<char>>)
    ensures
        views(out@) == words(s@),
{
    let mut out: Vec<Vec<char>> = Vec::new();
    let mut i: usize = 0;
    while i < s.len()
        invariant
            i <= s.len(),
            views(out@) + words_from(s@, i as int) == words(s@),
        decreases s.len() - i,
    {
        if is_whitespace(s[i]) {
            i += 1;
        } else {
            let mut e = i + 1;
            while e < s.len() && !is_whitespace(s[e])
                invariant
                    i < e <= s.len(),
                    word_end(s@, e as int) == word_end(s@, i + 1),
                decreases s.len() - e,
            {
                e += 1;
            }
            let w = copy_range(s, i, e);
            let ghost before = views(out@);
            out.push(w);
            proof {
                assert(views(out@) =~= before.push(w@));
                assert(word_end(s@, e as int) == e);
                assert(before + (seq![s@.subrange(i as int, e as int)] + words_from(s@, e as int))
                    =~= views(out@) + words_from(s@, e as int));
            }
            i = e;
        }
    }
    proof {
        assert(views(out@) + words_from(s@, i as int) =~= views(out@));
    }
    out
}

// ───────────────────────── truncation ─────────────────────────

/// `utils::truncate`: at most `max` characters; a longer text keeps its first
/// `max - 3` characters followed by `...`.
pub open spec fn truncated(s: Seq<char>, max: nat) -> Seq<char> {
    if s.len() <= max {
        s
    } else {
        s.take(if max >= 3 { max - 3 } else { 0 }) + seq!['.', '.', '.']
    }
}

pub fn truncate(s: &str, max: usize) -> (r: String)
    ensures
        r@ == truncated(s@, max as nat),
{
    let v = chars_of(s);
    if v.len() <= max {
        return string_of(&v);
    }
    let keep = if max >= 3 { max - 3 } else { 0 };
    let mut out = copy_range(&v, 0, keep);
    out.push('.');
    out.push('.');
    out.push('.');
    proof {
        assert(out@ =~= v@.take(keep as int) + seq!['.', '.', '.']);
    }
    string_of(&out)
}

// ───────────────────────── decimal numbers ─────────────────────────

pub open spec fn digit_char(d: nat) -> char {
    (('0' as u32) + d) as char
}

/// The decimal representation of `n`, as `Display` prints it.
pub open spec fn decimal(n: nat) -> Seq<char>
    decreases n,
{
    if n < 10 {
        seq![digit_char(n)]
    } else {
        decimal(n / 10).push(digit_char(n % 10))
    }
}

fn digit(d: u64) -> (c: char)
    requires
        d < 10,
    ensures
        c == digit_char(d as nat),
{
    char_from_ascii((48 + d) as u32)
}

/// The decimal digits of `n` appended to `out`.
pub fn push_decimal(out: &mut Vec<char>, n: u64)
    ensures
        final(out)@ == old(out)@ + decimal(n as nat),
    decreases n,
{
    if n < 10 {
        out.push(digit(n));
        assert(old(out)@.push(digit_char(n as nat)) =~= old(out)@ + decimal(n as nat));
    } else {
        push_decimal(out, n / 10);
        out.push(digit(n % 10));
        assert(old(out)@ + decimal((n / 10) as nat) + seq![digit_char((n % 10) as nat)] =~= old(
            out,
        )@ + decimal(n as nat));
    }
}

pub open spec fn is_digit(c: char) -> bool {
    '0' <= c && c <= '9'
}

pub open spec fn digit_value(c: char) -> nat {
    ((c as u32) - ('0' as u32)) as nat
}

/// The value of a string of decimal digits.
pub open spec fn digits_value(s: Seq<char>) -> nat
    decreases s.len(),
{
    if s.len() == 0 {
        0
    } else {
        digits_value(s.drop_last()) * 10 + digit_value(s.last())
    }
}

pub open spec fn all_digits(s: Seq<char>) -> bool {
    forall|i: int| 0 <= i < s.len() ==> is_digit(#[trigger] s[i])
}

/// The unsigned magnitude `u64::from_str` reads: an optional `+`, then one or
/// more decimal digits.
pub open spec fn unsigned_body(s: Seq<char>) -> Seq<char> {
    if s.len() > 0 && s[0] == '+' {
        s.drop_first()
    } else {
        s
    }
}

/// What `s.parse::<u64>()` yields: `Some(value)` for an optional `+` followed
/// by at least one digit whose value fits in 64 bits, `None` otherwise.
pub open spec fn parse_u64_spec(s: Seq<char>) -> Option<u64> {
    let b = unsigned_body(s);
    if b.len() > 0 && all_digits(b) && digits_value(b) <= u64::MAX {
        Some(digits_value(b) as u64)
    } else {
        None
    }
}

/// What `s.parse::<i64>()` yields: an optional sign then at least one digit,
/// with the signed value within `i64`.
pub open spec fn parse_i64_spec(s: Seq<char>) -> Option<i64> {
    if s.len() > 0 && s[0] == '-' {
        let b = s.drop_first();
        if b.len() > 0 && all_digits(b) && digits_value(b) <= 0x8000_0000_0000_0000 {
            Some((0 - digits_value(b)) as i64)
        } else {
            None
        }
    } else {
        let b = unsigned_body(s);
        if b.len() > 0 && all_digits(b) && digits_value(b) <= i64::MAX {
            Some(digits_value(b) as i64)
        } else {
            None
        }
    }
}

/// The value of `v[from..]` when it is all digits and at most `limit`.
fn digits_up_to(v: &Vec<char>, from: usize, limit: u64) -> (r: Option<u64>)
    requires
        from <= v.len(),
        limit >= 9,
    ensures
        r == (if all_digits(v@.skip(from as int)) && digits_value(v@.skip(from as int)) <= limit {
            Some(digits_value(v@.skip(from as int)) as u64)
        } else {
            None
        }),
{
    let mut acc: u64 = 0;
    let mut i = from;
    while i < v.len()
        invariant
            from <= i <= v.len(),
            all_digits(v@.subrange(from as int, i as int)),
            acc == digits_value(v@.subrange(from as int, i as int)),
            acc <= limit,
            limit >= 9,
        decreases v.len() - i,
    {
        let c = v[i];
        let ghost pre = v@.subrange(from as int, i as int);
        let ghost next = v@.subrange(from as int, i + 1);
        assert(next.drop_last() =~= pre);
        if !('0' <= c && c <= '9') {
            proof {
                assert(v@.skip(from as int)[i - from] == c);
            }
            return None;
        }
        let d = (c as u32 - 48) as u64;
        if acc > (limit - d) / 10 {
            proof {
                assert(acc * 10 + d > limit) by (nonlinear_arith)
                    requires
                        acc > (limit - d) / 10,
                        d <= limit,
                        d < 10,
                ;
                if all_digits(v@.skip(from as int)) {
                    lemma_digits_monotone(v@.skip(from as int), (i - from + 1) as int);
                    assert(v@.skip(from as int).take(i - from + 1) =~= next);
                    assert(next.last() == c);
                    assert(digits_value(next) == acc * 10 + d);
                }
            }
            return None;
        }
        proof {
            assert(acc * 10 + d <= limit) by (nonlinear_arith)
                requires
                    acc <= (limit - d) / 10,
                    d < 10,
                    d <= limit,
            ;
        }
        acc = acc * 10 + d;
        proof {
            assert forall|j: int| 0 <= j < next.len() implies is_digit(#[trigger] next[j]) by {
                if j < pre.len() {
                    assert(next[j] == pre[j]);
                }
            }
        }
        i += 1;
    }
    assert(v@.subrange(from as int, v.len() as int) =~= v@.skip(from as int));
    Some(acc)
}

pub proof fn lemma_digits_monotone(s: Seq<char>, k: int)
    requires
        0 <= k <= s.len(),
        all_digits(s),
    ensures
        digits_value(s.take(k)) <= digits_value(s),
    decreases s.len() - k,
{
    if k < s.len() {
        lemma_digits_monotone(s, k + 1);
        assert(s.take(k + 1).drop_last() =~= s.take(k));
        assert(digits_value(s.take(k)) * 10 + digit_value(s.take(k + 1).last()) >= digits_value(
            s.take(k),
        )) by (nonlinear_arith);
    } else {
        assert(s.take(k) =~= s);
    }
}

/// `s.parse::<u64>()`.
pub fn parse_u64(s: &Vec<char>) -> (r: Option<u64>)
    ensures
        r == parse_u64_spec(s@),
{
    let from: usize = if s.len() > 0 && s[0] == '+' {
        1
    } else {
        0
    };
    proof {
        assert(v_skip_eq(s@, from as int) == unsigned_body(s@)) by {
            if from == 1 {
                assert(s@.skip(1) =~= s@.drop_first());
            } else {
                assert(s@.skip(0) =~= s@);
            }
        }
    }
    if from >= s.len() {
        return None;
    }
    digits_up_to(s, from, u64::MAX)
}

pub open spec fn v_skip_eq(s: Seq<char>, k: int) -> Seq<char> {
    s.skip(k)
}

/// `s.parse::<i64>()`.
pub fn parse_i64(s: &Vec<char>) -> (r: Option<i64>)
    ensures
        r == parse_i64_spec(s@),
{
    if s.len() > 0 && s[0] == '-' {
        assert(s@.skip(1) =~= s@.drop_first());
        if s.len() < 2 {
            return None;
        }
        match digits_up_to(s, 1, 0x8000_0000_0000_0000) {
            Some(m) => {
                if m == 0x8000_0000_0000_0000 {
                    Some(i64::MIN)
                } else {
                    Some(0 - (m as i64))
                }
            },
            None => None,
        }
    } else {
        let from: usize = if s.len() > 0 && s[0] == '+' {
            1
        } else {
            0
        };
        proof {
            if from == 1 {
                assert(s@.skip(1) =~= s@.drop_first());
            } else {
                assert(s@.skip(0) =~= s@);
            }
        }
        if from >= s.len() {
            return None;
        }
        match digits_up_to(s, from, 0x7fff_ffff_ffff_ffff) {
            Some(m) => Some(m as i64),
            None => None,
        }
    }
}

} // verus!

verus! {

// ───────────────────────── lines ─────────────────────────

/// Index of the first `'\n'` at or after `i` (the length when there is none).
pub open spec fn line_end(s: Seq<char>, i: int) -> int
    decreases s.len() - i,
{
    if 0 <= i < s.len() && s[i] != '\n' {
        line_end(s, i + 1)
    } else {
        i
    }
}

pub proof fn lemma_line_end(s: Seq<char>, i: int)
    requires
        0 <= i <= s.len(),
    ensures
        i <= line_end(s, i) <= s.len(),
        forall|j: int| i <= j < line_end(s, i) ==> #[trigger] s[j] != '\n',
        line_end(s, i) < s.len() ==> s[line_end(s, i)] == '\n',
    decreases s.len() - i,
{
    if i < s.len() && s[i] != '\n' {
        lemma_line_end(s, i + 1);
    }
}

/// The pieces of `s` from index `i` on, split at every `'\n'` (the newlines
/// themselves dropped; a trailing newline leaves a final empty piece).
pub open spec fn lines_from(s: Seq<char>, i: int) -> Seq<Seq<char>>
    decreases s.len() + 1 - i,
{
    if i < 0 || i > s.len() {
        seq![]
    } else {
        let e = line_end(s, i);
        proof {
            lemma_line_end(s, i);
        }
        if e >= s.len() {
            seq![s.subrange(i, s.len() as int)]
        } else {
            seq![s.subrange(i, e)] + lines_from(s, e + 1)
        }
    }
}

pub open spec fn split_lines(s: Seq<char>) -> Seq<Seq<char>> {
    lines_from(s, 0)
}

/// Pieces joined with `c` between consecutive ones.
pub open spec fn join_sep(ps: Seq<Seq<char>>, c: char) -> Seq<char>
    decreases ps.len(),
{
    if ps.len() == 0 {
        Seq::empty()
    } else if ps.len() == 1 {
        ps[0]
    } else {
        ps[0] + seq![c] + join_sep(ps.drop_first(), c)
    }
}

pub proof fn lemma_join_push(ps: Seq<Seq<char>>, x: Seq<char>, c: char)
    requires
        ps.len() > 0,
    ensures
        join_sep(ps.push(x), c) == join_sep(ps, c) + seq![c] + x,
    decreases ps.len(),
{
    let q = ps.push(x);
    assert(q[0] == ps[0]);
    if ps.len() == 1 {
        assert(q.drop_first() =~= seq![x]);
        assert(join_sep(seq![x], c) == x);
        assert(join_sep(ps, c) == ps[0]);
    } else {
        assert(q.drop_first() =~= ps.drop_first().push(x));
        lemma_join_push(ps.drop_first(), x, c);
        assert(join_sep(q, c) == ps[0] + seq![c] + join_sep(ps.drop_first().push(x), c));
        assert(join_sep(ps, c) == ps[0] + seq![c] + join_sep(ps.drop_first(), c));
        assert(ps[0] + seq![c] + (join_sep(ps.drop_first(), c) + seq![c] + x) =~= ps[0] + seq![c]
            + join_sep(ps.drop_first(), c) + seq![c] + x);
    }
}

/// Splitting at newlines and joining back gives the text back.
pub proof fn lemma_join_split(s: Seq<char>, i: int)
    requires
        0 <= i <= s.len(),
    ensures
        join_sep(lines_from(s, i), '\n') == s.subrange(i, s.len() as int),
        lines_from(s, i).len() >= 1,
    decreases s.len() + 1 - i,
{
    lemma_line_end(s, i);
    let e = line_end(s, i);
    if e < s.len() {
        lemma_join_split(s, e + 1);
        let rest = lines_from(s, e + 1);
        assert((seq![s.subrange(i, e)] + rest).drop_first() =~= rest);
        assert(s.subrange(i, e) + seq!['\n'] + s.subrange(e + 1, s.len() as int) =~= s.subrange(
            i,
            s.len() as int,
        ));
    }
}

/// The pieces of `s` between newlines.
pub fn split_lines_exec(s: &Vec<char>) -> (out: Vec<Vec<char>>)
    ensures
        views(out@) == split_lines(s@),
{
    let mut out: Vec<Vec<char>> = Vec::new();
    let mut start: usize = 0;
    let mut i: usize = 0;
    while i < s.len()
        invariant
            start <= i <= s.len(),
            forall|j: int| start <= j < i ==> #[trigger] s@[j] != '\n',
            views(out@) + lines_from(s@, start as int) == split_lines(s@),
        decreases s.len() - i,
    {
        if s[i] == '\n' {
            proof {
                lemma_line_end_at(s@, start as int, i as int);
            }
            let piece = copy_range(s, start, i);
            let ghost before = views(out@);
            out.push(piece);
            assert(views(out@) =~= before.push(piece@));
            assert(before + lines_from(s@, start as int) =~= views(out@) + lines_from(
                s@,
                i + 1,
            ));
            start = i + 1;
        }
        i += 1;
    }
    proof {
        lemma_line_end_at(s@, start as int, s@.len() as int);
    }
    let piece = copy_range(s, start, s.len());
    let ghost before = views(out@);
    out.push(piece);
    assert(views(out@) =~= before.push(piece@));
    assert(before + lines_from(s@, start as int) =~= views(out@));
    out
}

proof fn lemma_line_end_at(s: Seq<char>, start: int, i: int)
    requires
        0 <= start <= i <= s.len(),
        forall|j: int| start <= j < i ==> #[trigger] s[j] != '\n',
        i == s.len() || s[i] == '\n',
    ensures
        line_end(s, start) == i,
    decreases i - start,
{
    if start < i {
        lemma_line_end_at(s, start + 1, i);
    }
}

/// Pieces joined with newlines.
pub fn join_lines_exec(ps: &Vec<Vec<char>>) -> (out: Vec<char>)
    ensures
        out@ == join_sep(views(ps@), '\n'),
{
    let mut out: Vec<char> = Vec::new();
    if ps.len() == 0 {
        return out;
    }
    append_chars(&mut out, &ps[0]);
    let mut i: usize = 1;
    assert(views(ps@).take(1) =~= seq![ps@[0]@]);
    while i < ps.len()
        invariant
            1 <= i <= ps.len(),
            out@ == join_sep(views(ps@).take(i as int), '\n'),
        decreases ps.len() - i,
    {
        proof {
            lemma_join_push(views(ps@).take(i as int), ps@[i as int]@, '\n');
            assert(views(ps@).take(i as int).push(ps@[i as int]@) =~= views(ps@).take(i + 1));
        }
        out.push('\n');
        append_chars(&mut out, &ps[i]);
        i += 1;
    }
    assert(views(ps@).take(i as int) =~= views(ps@));
    out
}

/// Lexicographic order on characters, as `str`'s `<=` compares.
pub open spec fn lex_le(a: Seq<char>, b: Seq<char>) -> bool
    decreases a.len(),
{
    if a.len() == 0 {
        true
    } else if b.len() == 0 {
        false
    } else if a[0] != b[0] {
        (a[0] as u32) < (b[0] as u32)
    } else {
        lex_le(a.drop_first(), b.drop_first())
    }
}

/// Any two texts are ordered one way or the other.
pub proof fn lemma_lex_total(a: Seq<char>, b: Seq<char>)
    ensures
        lex_le(a, b) || lex_le(b, a),
    decreases a.len(),
{
    if a.len() > 0 && b.len() > 0 {
        if a[0] == b[0] {
            lemma_lex_total(a.drop_first(), b.drop_first());
        } else {
            vstd::utf8::char_u32_cast(a[0], a[0] as u32);
            vstd::utf8::char_u32_cast(b[0], b[0] as u32);
        }
    }
}

/// Texts ordered both ways are equal.
pub proof fn lemma_lex_antisym(a: Seq<char>, b: Seq<char>)
    requires
        lex_le(a, b),
        lex_le(b, a),
    ensures
        a == b,
    decreases a.len(),
{
    if a.len() == 0 {
        assert(b.len() == 0 || !lex_le(b, a));
        assert(a =~= b);
    } else if b.len() == 0 {
    } else if a[0] == b[0] {
        lemma_lex_antisym(a.drop_first(), b.drop_first());
        assert(a =~= seq![a[0]] + a.drop_first());
        assert(b =~= seq![b[0]] + b.drop_first());
    }
}

/// The order is transitive.
pub proof fn lemma_lex_trans(a: Seq<char>, b: Seq<char>, c: Seq<char>)
    requires
        lex_le(a, b),
        lex_le(b, c),
    ensures
        lex_le(a, c),
    decreases a.len(),
{
    if a.len() > 0 && b.len() > 0 && c.len() > 0 && a[0] == b[0] && b[0] == c[0] {
        lemma_lex_trans(a.drop_first(), b.drop_first(), c.drop_first());
    }
}

/// `v` without any entry equal to `x`.
pub open spec fn without(v: Seq<Seq<char>>, x: Seq<char>) -> Seq<Seq<char>> {
    v.filter(|y: Seq<char>| y != x)
}

pub fn lex_le_exec(a: &Vec<char>, b: &Vec<char>) -> (r: bool)
    ensures
        r == lex_le(a@, b@),
{
    let mut i: usize = 0;
    assert(a@.skip(0) =~= a@);
    assert(b@.skip(0) =~= b@);
    while i < a.len() && i < b.len() && a[i] == b[i]
        invariant
            i <= a.len(),
            i <= b.len(),
            lex_le(a@.skip(i as int), b@.skip(i as int)) == lex_le(a@, b@),
        decreases a.len() - i,
    {
        assert(a@.skip(i as int).drop_first() =~= a@.skip(i + 1));
        assert(b@.skip(i as int).drop_first() =~= b@.skip(i + 1));
        i += 1;
    }
    if i == a.len() {
        true
    } else if i == b.len() {
        false
    } else {
        (a[i] as u32) < (b[i] as u32)
    }
}

// ───────────────────────── last occurrence ─────────────────────────

/// Index just past the last `c` in `s[..end]`, or 0 when there is none.
pub open spec fn after_last(s: Seq<char>, c: char, end: int) -> int
    decreases end,
{
    if end <= 0 || end > s.len() {
        0
    } else if s[end - 1] == c {
        end
    } else {
        after_last(s, c, end - 1)
    }
}

pub proof fn lemma_after_last(s: Seq<char>, c: char, end: int)
    requires
        0 <= end <= s.len(),
    ensures
        0 <= after_last(s, c, end) <= end,
        after_last(s, c, end) > 0 ==> s[after_last(s, c, end) - 1] == c,
        forall|j: int| after_last(s, c, end) <= j < end ==> s[j] != c,
    decreases end,
{
    if end > 0 && s[end - 1] != c {
        lemma_after_last(s, c, end - 1);
    }
}

/// Index just past the last `c` in `s`, or 0 when there is none.
pub fn after_last_exec(s: &Vec<char>, c: char) -> (k: usize)
    ensures
        k as int == after_last(s@, c, s@.len() as int),
        k <= s.len(),
{
    let mut end = s.len();
    while end > 0
        invariant
            end <= s.len(),
            after_last(s@, c, end as int) == after_last(s@, c, s@.len() as int),
        decreases end,
    {
        if s[end - 1] == c {
            return end;
        }
        end -= 1;
    }
    0
}

/// `s` with ASCII lowercase letters made uppercase.
pub open spec fn ascii_upper_seq(s: Seq<char>) -> Seq<char> {
    s.map_values(|c: char| ascii_upper(c))
}

pub fn upper_ascii(v: &Vec<char>) -> (r: Vec<char>)
    ensures
        r@ == ascii_upper_seq(v@),
{
    let mut r: Vec<char> = Vec::new();
    let mut i: usize = 0;
    while i < v.len()
        invariant
            i <= v.len(),
            r@ == ascii_upper_seq(v@).take(i as int),
        decreases v.len() - i,
    {
        r.push(to_ascii_upper(v[i]));
        assert(r@ =~= ascii_upper_seq(v@).take(i + 1));
        i += 1;
    }
    assert(ascii_upper_seq(v@).take(i as int) =~= ascii_upper_seq(v@));
    r
}

} // verus!
