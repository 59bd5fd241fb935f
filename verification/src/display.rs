//! Short, unambiguous renderings of entity ids.

use vstd::prelude::*;
use crate::text::{append_chars, chars_of, copy_range, copy_str, string_of, to_lowercase, unicode_lowercase};

verus! {

/// Minimum prefix length for truncated display.
pub const MIN_PREFIX_LEN: usize = 6;

/// The UTF-8 bytes of a text.
pub open spec fn utf8(s: Seq<char>) -> Seq<u8> {
    vstd::utf8::encode_utf8(s)
}

/// An id can be cut after its first six bytes: it is no longer, or a
/// character ends there.
pub open spec fn short_id_ok(id: Seq<char>) -> bool {
    utf8(id).len() <= 6 || vstd::utf8::is_char_boundary(utf8(id), 6)
}

/// The characters making up the first (at most six) bytes of an id.
pub open spec fn short_of(id: Seq<char>) -> Seq<char> {
    vstd::utf8::decode_utf8(utf8(id).take(if utf8(id).len() < 6 { utf8(id).len() as int } else { 6 }))
}

/// Whether `short_id` can cut `id` (see `short_id_ok`).
pub fn can_shorten(id: &str) -> (b: bool)
    ensures
        b == short_id_ok(id@),
{
    id.as_bytes().len() <= MIN_PREFIX_LEN || id.is_char_boundary(MIN_PREFIX_LEN)
}

/// The first (at most six) bytes of an id. Where the sixth byte falls
/// inside a character the id cannot be cut, and `requires` leaves it out.
pub fn short_id(id: &str) -> (r: String)
    requires
        short_id_ok(id@),
    ensures
        utf8(r@) == utf8(id@).take(if utf8(id@).len() < 6 { utf8(id@).len() as int } else { 6 }),
        r@ == short_of(id@),
{
    proof {
        broadcast use vstd::utf8::encode_utf8_decode_utf8;
    }
    let n = id.as_bytes().len();
    assert(n as int == utf8(id@).len());
    if n <= MIN_PREFIX_LEN {
        let r = copy_str(id);
        assert(utf8(id@).take(utf8(id@).len() as int) =~= utf8(id@));
        return r;
    }
    let (head, _rest) = id.split_at(MIN_PREFIX_LEN);
    let r = copy_str(head);
    assert(utf8(id@).subrange(0, 6) =~= utf8(id@).take(6));
    r
}

// ───────────────────────── common prefixes ─────────────────────────

pub open spec fn lcp_at<A>(a: Seq<A>, b: Seq<A>, k: int) -> int
    decreases a.len() - k,
{
    if 0 <= k < a.len() && k < b.len() && a[k] == b[k] {
        lcp_at(a, b, k + 1)
    } else {
        k
    }
}

/// Length of the longest common prefix of `a` and `b`.
pub open spec fn lcp<A>(a: Seq<A>, b: Seq<A>) -> int {
    lcp_at(a, b, 0)
}

pub proof fn lemma_lcp_at<A>(a: Seq<A>, b: Seq<A>, k: int)
    requires
        0 <= k <= a.len(),
        k <= b.len(),
    ensures
        k <= lcp_at(a, b, k) <= a.len(),
        lcp_at(a, b, k) <= b.len(),
        forall|j: int| k <= j < lcp_at(a, b, k) ==> a[j] == b[j],
        lcp_at(a, b, k) < a.len() && lcp_at(a, b, k) < b.len() ==> a[lcp_at(a, b, k)] != b[lcp_at(
            a,
            b,
            k,
        )],
    decreases a.len() - k,
{
    if k < a.len() && k < b.len() && a[k] == b[k] {
        lemma_lcp_at(a, b, k + 1);
    }
}

pub proof fn lemma_lcp<A>(a: Seq<A>, b: Seq<A>)
    ensures
        0 <= lcp(a, b) <= a.len(),
        lcp(a, b) <= b.len(),
        a.take(lcp(a, b)) == b.take(lcp(a, b)),
        lcp(a, b) < a.len() && lcp(a, b) < b.len() ==> a[lcp(a, b)] != b[lcp(a, b)],
        lcp(a, b) == lcp(b, a),
{
    lemma_lcp_at(a, b, 0);
    lemma_lcp_at(b, a, 0);
    assert(a.take(lcp(a, b)) =~= b.take(lcp(a, b)));
    lemma_lcp_symmetric(a, b, 0);
}

proof fn lemma_lcp_symmetric<A>(a: Seq<A>, b: Seq<A>, k: int)
    ensures
        lcp_at(a, b, k) == lcp_at(b, a, k),
    decreases a.len() - k,
{
    if 0 <= k < a.len() && k < b.len() && a[k] == b[k] {
        lemma_lcp_symmetric(a, b, k + 1);
    }
}

/// Two sequences agreeing on their first `p` characters share a prefix at
/// least that long.
pub proof fn lemma_lcp_at_least<A>(a: Seq<A>, b: Seq<A>, p: int)
    requires
        0 <= p <= a.len(),
        p <= b.len(),
        a.take(p) == b.take(p),
    ensures
        p <= lcp(a, b),
{
    lemma_lcp(a, b);
    let l = lcp(a, b);
    if l < p {
        assert(a.take(p)[l] == a[l]);
        assert(b.take(p)[l] == b[l]);
        assert(a.take(p)[l] == b.take(p)[l]);
    }
}

/// Length of the common prefix of two byte strings.
pub fn common_prefix_len(a: &Vec<u8>, b: &Vec<u8>) -> (n: usize)
    ensures
        n == lcp(a@, b@),
{
    let mut k: usize = 0;
    while k < a.len() && k < b.len() && a[k] == b[k]
        invariant
            k <= a.len(),
            k <= b.len(),
            lcp_at(a@, b@, k as int) == lcp(a@, b@),
        decreases a.len() - k,
    {
        k += 1;
    }
    k
}

// ───────────────────────── unambiguous prefixes ─────────────────────────

pub open spec fn max(a: int, b: int) -> int {
    if a >= b {
        a
    } else {
        b
    }
}

pub open spec fn min(a: int, b: int) -> int {
    if a <= b {
        a
    } else {
        b
    }
}

/// One past the longest prefix `ids[i]` shares with any other of `ids[..n]`
/// (zero when there is none).
pub open spec fn clash<A>(ids: Seq<Seq<A>>, i: int, n: int) -> int
    decreases n,
{
    if n <= 0 {
        0
    } else if n - 1 != i {
        max(clash(ids, i, n - 1), lcp(ids[i], ids[n - 1]) + 1)
    } else {
        clash(ids, i, n - 1)
    }
}

/// The display length of `ids[i]`: one character past its longest clash,
/// at least six, and never more than the whole id.
pub open spec fn required_len<A>(ids: Seq<Seq<A>>, i: int) -> int {
    min(ids[i].len() as int, max(MIN_PREFIX_LEN as int, clash(ids, i, ids.len() as int)))
}

pub proof fn lemma_clash_bound<A>(ids: Seq<Seq<A>>, i: int, n: int, j: int)
    requires
        0 <= i < ids.len(),
        0 <= j < n <= ids.len(),
        j != i,
    ensures
        clash(ids, i, n) >= lcp(ids[i], ids[j]) + 1,
    decreases n,
{
    if j < n - 1 {
        lemma_clash_bound(ids, i, n - 1, j);
    }
}

pub proof fn lemma_clash_nonneg<A>(ids: Seq<Seq<A>>, i: int, n: int)
    ensures
        clash(ids, i, n) >= 0,
    decreases n,
{
    if n > 0 {
        lemma_clash_nonneg(ids, i, n - 1);
    }
}

/// The bytes of each of a list of byte strings.
pub open spec fn byte_views(v: Seq<Vec<u8>>) -> Seq<Seq<u8>> {
    v.map_values(|b: Vec<u8>| b@)
}

/// The display length, in bytes, of every normalized id.
pub fn prefix_lengths(ids: &Vec<Vec<u8>>) -> (r: Vec<usize>)
    ensures
        r@.len() == ids@.len(),
        forall|i: int| 0 <= i < ids@.len() ==> r@[i] == required_len(byte_views(ids@), i),
{
    let ghost vs = byte_views(ids@);
    let mut r: Vec<usize> = Vec::new();
    let mut i: usize = 0;
    while i < ids.len()
        invariant
            i <= ids.len(),
            vs == byte_views(ids@),
            r@.len() == i,
            forall|k: int| 0 <= k < i ==> r@[k] == required_len(vs, k),
        decreases ids.len() - i,
    {
        let mut best: usize = 0;
        let mut j: usize = 0;
        while j < ids.len()
            invariant
                i < ids.len(),
                j <= ids.len(),
                vs == byte_views(ids@),
                best as int == min(ids@[i as int]@.len() as int, clash(vs, i as int, j as int)),
            decreases ids.len() - j,
        {
            assert(vs[i as int] == ids@[i as int]@ && vs[j as int] == ids@[j as int]@);
            if j != i {
                let l = common_prefix_len(&ids[i], &ids[j]);
                proof {
                    lemma_lcp(ids@[i as int]@, ids@[j as int]@);
                }
                let cand = if l < ids[i].len() {
                    l + 1
                } else {
                    ids[i].len()
                };
                if cand > best {
                    best = cand;
                }
            }
            j += 1;
        }
        proof {
            lemma_clash_nonneg(vs, i as int, ids.len() as int);
        }
        let len = ids[i].len();
        let lo = if best < MIN_PREFIX_LEN {
            MIN_PREFIX_LEN
        } else {
            best
        };
        let req = if lo < len {
            lo
        } else {
            len
        };
        r.push(req);
        i += 1;
    }
    r
}

/// An id with dashes removed.
pub open spec fn undashed(u: Seq<char>) -> Seq<char> {
    u.filter(|c: char| c != '-')
}

/// The form ids are compared in: dashes removed, then lower-cased.
pub open spec fn normalized(u: Seq<char>) -> Seq<char> {
    unicode_lowercase(undashed(u))
}

pub fn remove_dashes(u: &str) -> (r: Vec<char>)
    ensures
        r@ == undashed(u@),
{
    let v = chars_of(u);
    let mut out: Vec<char> = Vec::new();
    let mut i: usize = 0;
    while i < v.len()
        invariant
            i <= v.len(),
            out@ == v@.take(i as int).filter(|c: char| c != '-'),
        decreases v.len() - i,
    {
        proof {
            reveal(Seq::filter);
            assert(v@.take(i + 1).drop_last() =~= v@.take(i as int));
        }
        if v[i] != '-' {
            out.push(v[i]);
        }
        i += 1;
    }
    assert(v@.take(i as int) =~= v@);
    out
}

/// The UTF-8 bytes of each id's normalized form.
pub open spec fn normalized_bytes(uuids: Seq<&str>) -> Seq<Seq<u8>> {
    uuids.map_values(|u: &str| utf8(normalized(u@)))
}

/// Every id's display prefix ends between two characters, so it can be cut
/// there.
pub open spec fn prefixes_cuttable(uuids: Seq<&str>) -> bool {
    let norms = normalized_bytes(uuids);
    forall|i: int| 0 <= i < norms.len() ==> vstd::utf8::is_char_boundary(#[trigger] norms[i], required_len(norms, i))
}

fn copy_bytes(b: &[u8]) -> (r: Vec<u8>)
    ensures
        r@ == b@,
{
    let mut r: Vec<u8> = Vec::new();
    let mut i: usize = 0;
    while i < b.len()
        invariant
            i <= b@.len(),
            r@ == b@.take(i as int),
        decreases b@.len() - i,
    {
        r.push(b[i]);
        i += 1;
        assert(r@ =~= b@.take(i as int));
    }
    assert(b@.take(i as int) =~= b@);
    r
}

/// Every id paired with its shortest unambiguous prefix (at least six
/// bytes) of its normalized form (dashes removed, lower-cased), measured in
/// UTF-8 bytes. Ids that are identical once normalized cannot be told apart
/// and show in full. A prefix that would end inside a character cannot be
/// cut, and `requires` leaves such ids out.
pub fn truncated_prefixes(uuids: &Vec<&str>) -> (r: Vec<(String, String)>)
    requires
        prefixes_cuttable(uuids@),
    ensures
        r@.len() == uuids@.len(),
        forall|i: int|
            0 <= i < uuids@.len() ==> {
                let norms = normalized_bytes(uuids@);
                &&& (#[trigger] r@[i]).0@ == uuids@[i]@
                &&& utf8(r@[i].1@) == norms[i].take(required_len(norms, i))
            },
{
    let ghost norms = normalized_bytes(uuids@);
    let mut lows: Vec<String> = Vec::new();
    let mut ids: Vec<Vec<u8>> = Vec::new();
    let mut i: usize = 0;
    while i < uuids.len()
        invariant
            i <= uuids.len(),
            norms == normalized_bytes(uuids@),
            byte_views(ids@) == norms.take(i as int),
            lows@.len() == i,
            forall|m: int| 0 <= m < i ==> utf8((#[trigger] lows@[m])@) == norms[m],
        decreases uuids.len() - i,
    {
        let d = remove_dashes(uuids[i]);
        let ds = string_of(&d);
        let low = to_lowercase(ds.as_str());
        let bytes = copy_bytes(low.as_str().as_bytes());
        assert(norms[i as int] == utf8(normalized(uuids@[i as int]@)));
        let ghost before = byte_views(ids@);
        ids.push(bytes);
        lows.push(low);
        assert(byte_views(ids@) =~= before.push(norms[i as int]));
        assert(norms.take(i + 1) =~= norms.take(i as int).push(norms[i as int]));
        i += 1;
    }
    assert(norms.take(i as int) =~= norms);
    let lens = prefix_lengths(&ids);
    let mut out: Vec<(String, String)> = Vec::new();
    let mut k: usize = 0;
    while k < uuids.len()
        invariant
            k <= uuids.len(),
            ids@.len() == uuids@.len(),
            lows@.len() == uuids@.len(),
            lens@.len() == ids@.len(),
            byte_views(ids@) == norms,
            norms == normalized_bytes(uuids@),
            prefixes_cuttable(uuids@),
            forall|m: int| 0 <= m < uuids@.len() ==> utf8((#[trigger] lows@[m])@) == norms[m],
            forall|m: int| 0 <= m < ids@.len() ==> lens@[m] == required_len(norms, m),
            out@.len() == k,
            forall|m: int|
                0 <= m < k ==> (#[trigger] out@[m]).0@ == uuids@[m]@ && utf8(out@[m].1@) == norms[m].take(
                    required_len(norms, m),
                ),
        decreases uuids.len() - k,
    {
        let req = lens[k];
        assert(lens@[k as int] == required_len(norms, k as int));
        proof {
            law_prefix_shape(norms, k as int);
        }
        assert(utf8(lows@[k as int]@) == norms[k as int]);
        assert(vstd::utf8::is_char_boundary(norms[k as int], required_len(norms, k as int)));
        let (head, _rest) = lows[k].as_str().split_at(req);
        assert(norms[k as int].subrange(0, req as int) =~= norms[k as int].take(req as int));
        let ghost before = out@;
        out.push((copy_str(uuids[k]), copy_str(head)));
        proof {
            assert forall|m: int|
                0 <= m < k + 1 implies (#[trigger] out@[m]).0@ == uuids@[m]@ && utf8(out@[m].1@) == norms[m].take(
                    required_len(norms, m),
                ) by {
                if m < k {
                    assert(out@[m] == before[m]);
                }
            }
        }
        k += 1;
    }
    out
}

// ───────────────────────── laws ─────────────────────────

/// Distinct ids get distinct prefixes: no two entities with different
/// normalized ids are ever displayed the same way.
pub proof fn law_prefixes_unambiguous<A>(ids: Seq<Seq<A>>, i: int, j: int)
    requires
        0 <= i < ids.len(),
        0 <= j < ids.len(),
        i != j,
        ids[i] != ids[j],
    ensures
        ids[i].take(required_len(ids, i)) != ids[j].take(required_len(ids, j)),
{
    let a = ids[i];
    let b = ids[j];
    lemma_lcp(a, b);
    let l = lcp(a, b);
    lemma_clash_bound(ids, i, ids.len() as int, j);
    lemma_clash_bound(ids, j, ids.len() as int, i);
    lemma_lcp(b, a);
    let ri = required_len(ids, i);
    let rj = required_len(ids, j);
    lemma_clash_nonneg(ids, i, ids.len() as int);
    lemma_clash_nonneg(ids, j, ids.len() as int);
    if a.take(ri) == b.take(rj) {
        assert(a.take(ri).len() == ri);
        assert(b.take(rj).len() == rj);
        assert(ri == rj);
        lemma_lcp_at_least(a, b, ri);
        if ri >= l + 1 {
        } else {
            assert(ri == a.len());
            assert(rj == b.len());
            assert(a =~= a.take(ri));
            assert(b =~= b.take(rj));
        }
    }
}

/// Every displayed prefix is a prefix of the normalized id and at least six
/// characters long, unless the id itself is shorter.
pub proof fn law_prefix_shape<A>(ids: Seq<Seq<A>>, i: int)
    requires
        0 <= i < ids.len(),
    ensures
        ids[i].take(required_len(ids, i)).is_prefix_of(ids[i]),
        required_len(ids, i) >= min(ids[i].len() as int, MIN_PREFIX_LEN as int),
        required_len(ids, i) <= ids[i].len(),
{
    lemma_clash_nonneg(ids, i, ids.len() as int);
}

// ───────────────────────── type prefixes ─────────────────────────

/// The one-letter prefix of an entity type, `?` for an unknown one.
pub open spec fn type_char(entity_type: Seq<char>) -> char {
    if entity_type == "problem"@ {
        'p'
    } else if entity_type == "solution"@ {
        's'
    } else if entity_type == "critique"@ {
        'c'
    } else if entity_type == "milestone"@ {
        'm'
    } else {
        '?'
    }
}

/// `<type letter>/<prefix>` for mixed-type listings.
pub fn format_with_type_prefix(entity_type: &str, prefix: &str) -> (r: String)
    ensures
        r@ == seq![type_char(entity_type@), '/'] + prefix@,
{
    let c = if crate::text::str_eq(entity_type, "problem") {
        'p'
    } else if crate::text::str_eq(entity_type, "solution") {
        's'
    } else if crate::text::str_eq(entity_type, "critique") {
        'c'
    } else if crate::text::str_eq(entity_type, "milestone") {
        'm'
    } else {
        '?'
    };
    let mut out: Vec<char> = Vec::new();
    out.push(c);
    out.push('/');
    let pv = chars_of(prefix);
    append_chars(&mut out, &pv);
    assert(out@ =~= seq![type_char(entity_type@), '/'] + prefix@);
    string_of(&out)
}

} // verus!
