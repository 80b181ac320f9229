//! Pairing downloaded thumbnails with the user's replacement files by
//! perceptual-hash distance: a greedy one-to-one match that takes the closest
//! pairs first.
use vstd::prelude::*;

use crate::text::to_string;

verus! {

/// How many of the low `k` bits of `a` and `b` differ.
pub open spec fn bit_diff(a: nat, b: nat, k: nat) -> nat
    decreases k,
{
    if k == 0 {
        0
    } else {
        (if a % 2 != b % 2 {
            1nat
        } else {
            0nat
        }) + bit_diff(a / 2, b / 2, (k - 1) as nat)
    }
}

/// The Hamming distance of two hashes: the bits in which they differ, over
/// the bytes they have in common (`ImageHash::dist`, the count of one-bits
/// of the byte-wise XOR).
pub open spec fn hamming(a: Seq<u8>, b: Seq<u8>) -> nat
    decreases a.len(),
{
    if a.len() == 0 || b.len() == 0 {
        0
    } else {
        bit_diff(a[0] as nat, b[0] as nat, 8) + hamming(a.drop_first(), b.drop_first())
    }
}

proof fn lemma_bit_diff_bound(a: nat, b: nat, k: nat)
    ensures
        bit_diff(a, b, k) <= k,
    decreases k,
{
    if k > 0 {
        lemma_bit_diff_bound(a / 2, b / 2, (k - 1) as nat);
    }
}

fn byte_distance(x: u8, y: u8) -> (r: u32)
    ensures
        r == bit_diff(x as nat, y as nat, 8),
        r <= 8,
{
    let mut a = x;
    let mut b = y;
    let mut count: u32 = 0;
    let mut i: u32 = 0;
    while i < 8
        invariant
            i <= 8,
            count <= i,
            count + bit_diff(a as nat, b as nat, (8 - i) as nat) == bit_diff(x as nat, y as nat, 8),
        decreases 8 - i,
    {
        if a % 2 != b % 2 {
            count = count + 1;
        }
        a = a / 2;
        b = b / 2;
        i = i + 1;
    }
    count
}

/// The largest hash, in bytes, whose distances are computed.
pub open spec fn hash_len_ok(h: Seq<u8>) -> bool {
    h.len() < 0x2000_0000
}

/// The Hamming distance of two hashes.
pub fn hash_distance(a: &Vec<u8>, b: &Vec<u8>) -> (r: u32)
    requires
        hash_len_ok(a@),
    ensures
        r == hamming(a@, b@),
{
    let mut i: usize = 0;
    let mut total: u32 = 0;
    assert(a@.skip(0) == a@);
    assert(b@.skip(0) == b@);
    while i < a.len() && i < b.len()
        invariant
            hash_len_ok(a@),
            i <= a@.len(),
            i <= b@.len(),
            total <= 8 * i,
            total + hamming(a@.skip(i as int), b@.skip(i as int)) == hamming(a@, b@),
        decreases a@.len() - i,
    {
        assert(a@.skip(i as int).drop_first() == a@.skip(i + 1));
        assert(b@.skip(i as int).drop_first() == b@.skip(i + 1));
        let d = byte_distance(a[i], b[i]);
        total = total + d;
        i = i + 1;
    }
    total
}

/// A thumbnail of the collection with its hash.
#[derive(Debug)]
pub struct ThumbHash {
    pub image_id: u64,
    pub path: String,
    pub hash: Vec<u8>,
}

/// A replacement file with its hash and rendered preview.
#[derive(Debug)]
pub struct FileHash {
    pub path: String,
    pub preview_path: String,
    pub hash: Vec<u8>,
}

/// A thumbnail paired with the file that replaces it.
#[derive(Debug)]
pub struct Match {
    pub image_id: u64,
    pub thumbnail_path: String,
    pub file_path: String,
    pub file_preview_path: String,
    pub distance: u32,
}

/// The outcome of a match: the pairs in the order they were taken, what was
/// left on each side, and the threshold used.
#[derive(Debug)]
pub struct MatchResult {
    pub matches: Vec<Match>,
    pub unmatched_thumbnails: Vec<u64>,
    pub unmatched_files: Vec<String>,
    pub threshold: u32,
}

/// `m` is a distance table with `nt` rows of `nf` entries.
pub open spec fn is_table(m: Seq<Seq<u32>>, nt: nat, nf: nat) -> bool {
    m.len() == nt && forall|t: int| 0 <= t < nt ==> #[trigger] m[t].len() == nf
}

/// The distance of a pair.
pub open spec fn dist_of(m: Seq<Seq<u32>>, c: (usize, usize)) -> u32 {
    m[c.0 as int][c.1 as int]
}

/// `c` may be matched: in range and within `max`.
pub open spec fn is_candidate(m: Seq<Seq<u32>>, nt: nat, nf: nat, max: u32, c: (usize, usize)) -> bool {
    c.0 < nt && c.1 < nf && dist_of(m, c) <= max
}

/// The order in which pairs are considered: by distance, then by thumbnail,
/// then by file (a stable sort by distance of the row-by-row list).
pub open spec fn before(m: Seq<Seq<u32>>, a: (usize, usize), b: (usize, usize)) -> bool {
    ||| dist_of(m, a) < dist_of(m, b)
    ||| dist_of(m, a) == dist_of(m, b) && a.0 < b.0
    ||| dist_of(m, a) == dist_of(m, b) && a.0 == b.0 && a.1 < b.1
}

/// Some pair of `ms` considered before `c` shares its thumbnail or its file.
pub open spec fn blocked(m: Seq<Seq<u32>>, ms: Seq<(usize, usize)>, c: (usize, usize)) -> bool {
    exists|k: int|
        0 <= k < ms.len() && before(m, #[trigger] ms[k], c) && (ms[k].0 == c.0 || ms[k].1 == c.1)
}

/// `ms` is the greedy matching of the table: the candidates, taken in order,
/// each kept exactly when nothing kept before it shares a side with it.
pub open spec fn is_greedy(m: Seq<Seq<u32>>, nt: nat, nf: nat, max: u32, ms: Seq<(usize, usize)>) -> bool {
    &&& forall|k: int| 0 <= k < ms.len() ==> is_candidate(m, nt, nf, max, #[trigger] ms[k])
    &&& forall|i: int, j: int| 0 <= i < j < ms.len() ==> before(m, #[trigger] ms[i], #[trigger] ms[j])
    &&& forall|c: (usize, usize)|
        #[trigger] is_candidate(m, nt, nf, max, c) ==> (ms.contains(c) <==> !blocked(m, ms, c))
}

/// `c` is considered before the position `(d, t, f)` of the scan.
pub open spec fn before_cursor(m: Seq<Seq<u32>>, c: (usize, usize), d: int, t: int, f: int) -> bool {
    ||| dist_of(m, c) < d
    ||| dist_of(m, c) == d && (c.0 as int) < t
    ||| dist_of(m, c) == d && c.0 as int == t && (c.1 as int) < f
}

/// The scan state at position `(d, t, f)`.
pub open spec fn scan_inv(
    m: Seq<Seq<u32>>,
    nt: nat,
    nf: nat,
    max: u32,
    ms: Seq<(usize, usize)>,
    taken_t: Seq<bool>,
    taken_f: Seq<bool>,
    d: int,
    t: int,
    f: int,
) -> bool {
    &&& is_table(m, nt, nf)
    &&& taken_t.len() == nt
    &&& taken_f.len() == nf
    &&& forall|k: int|
        0 <= k < ms.len() ==> is_candidate(m, nt, nf, max, #[trigger] ms[k]) && before_cursor(
            m,
            ms[k],
            d,
            t,
            f,
        )
    &&& forall|i: int, j: int| 0 <= i < j < ms.len() ==> before(m, #[trigger] ms[i], #[trigger] ms[j])
    &&& forall|x: int|
        0 <= x < nt ==> (#[trigger] taken_t[x] <==> exists|k: int|
            0 <= k < ms.len() && #[trigger] ms[k].0 == x)
    &&& forall|y: int|
        0 <= y < nf ==> (#[trigger] taken_f[y] <==> exists|k: int|
            0 <= k < ms.len() && #[trigger] ms[k].1 == y)
    &&& forall|c: (usize, usize)|
        #[trigger] is_candidate(m, nt, nf, max, c) && before_cursor(m, c, d, t, f) ==> (ms.contains(c)
            <==> !blocked(m, ms, c))
}

/// The working state of the scan.
struct Scan {
    ms: Vec<(usize, usize)>,
    taken_t: Vec<bool>,
    taken_f: Vec<bool>,
}

proof fn lemma_take(
    m: Seq<Seq<u32>>,
    nt: nat,
    nf: nat,
    max: u32,
    ms: Seq<(usize, usize)>,
    taken_t: Seq<bool>,
    taken_f: Seq<bool>,
    d: int,
    t: usize,
    f: usize,
)
    requires
        scan_inv(m, nt, nf, max, ms, taken_t, taken_f, d, t as int, f as int),
        t < nt,
        f < nf,
        dist_of(m, (t, f)) == d,
        d <= max,
        !taken_t[t as int],
        !taken_f[f as int],
    ensures
        scan_inv(
            m,
            nt,
            nf,
            max,
            ms.push((t, f)),
            taken_t.update(t as int, true),
            taken_f.update(f as int, true),
            d,
            t as int,
            f + 1,
        ),
{
    let c = (t, f);
    let ms2 = ms.push(c);
    let tt2 = taken_t.update(t as int, true);
    let tf2 = taken_f.update(f as int, true);
    assert forall|k: int| 0 <= k < ms2.len() implies is_candidate(m, nt, nf, max, #[trigger] ms2[k])
        && before_cursor(m, ms2[k], d, t as int, f + 1) by {
        if k < ms.len() {
            assert(ms2[k] == ms[k]);
        }
    }
    assert forall|i: int, j: int| 0 <= i < j < ms2.len() implies before(
        m,
        #[trigger] ms2[i],
        #[trigger] ms2[j],
    ) by {
        if j < ms.len() {
            assert(ms2[i] == ms[i] && ms2[j] == ms[j]);
        } else {
            assert(ms2[i] == ms[i]);
            assert(before_cursor(m, ms[i], d, t as int, f as int));
        }
    }
    assert forall|x: int| 0 <= x < nt implies (#[trigger] tt2[x] <==> exists|k: int|
        0 <= k < ms2.len() && #[trigger] ms2[k].0 == x) by {
        if tt2[x] {
            if x == t {
                assert(ms2[ms.len() as int].0 == x);
            } else {
                let k = choose|k: int| 0 <= k < ms.len() && #[trigger] ms[k].0 == x;
                assert(ms2[k].0 == x);
            }
        } else {
            if exists|k: int| 0 <= k < ms2.len() && #[trigger] ms2[k].0 == x {
                let k = choose|k: int| 0 <= k < ms2.len() && #[trigger] ms2[k].0 == x;
                assert(k < ms.len());
                assert(ms[k].0 == x);
            }
        }
    }
    assert forall|y: int| 0 <= y < nf implies (#[trigger] tf2[y] <==> exists|k: int|
        0 <= k < ms2.len() && #[trigger] ms2[k].1 == y) by {
        if tf2[y] {
            if y == f {
                assert(ms2[ms.len() as int].1 == y);
            } else {
                let k = choose|k: int| 0 <= k < ms.len() && #[trigger] ms[k].1 == y;
                assert(ms2[k].1 == y);
            }
        } else {
            if exists|k: int| 0 <= k < ms2.len() && #[trigger] ms2[k].1 == y {
                let k = choose|k: int| 0 <= k < ms2.len() && #[trigger] ms2[k].1 == y;
                assert(k < ms.len());
                assert(ms[k].1 == y);
            }
        }
    }
    assert forall|e: (usize, usize)|
        #[trigger] is_candidate(m, nt, nf, max, e) && before_cursor(m, e, d, t as int, f + 1) implies (
    ms2.contains(e) <==> !blocked(m, ms2, e)) by {
        if e == c {
            assert(ms2[ms.len() as int] == c);
            if blocked(m, ms2, e) {
                let k = choose|k: int|
                    0 <= k < ms2.len() && before(m, #[trigger] ms2[k], e) && (ms2[k].0 == e.0
                        || ms2[k].1 == e.1);
                assert(k < ms.len());
                assert(ms[k] == ms2[k]);
                if ms[k].0 == e.0 {
                    assert(taken_t[t as int]);
                } else {
                    assert(taken_f[f as int]);
                }
            }
        } else {
            assert(before_cursor(m, e, d, t as int, f as int));
            if ms.contains(e) {
                let k = choose|k: int| 0 <= k < ms.len() && ms[k] == e;
                assert(ms2[k] == e);
            }
            if ms2.contains(e) {
                let k = choose|k: int| 0 <= k < ms2.len() && ms2[k] == e;
                assert(k < ms.len());
                assert(ms[k] == e);
            }
            if blocked(m, ms, e) {
                let k = choose|k: int|
                    0 <= k < ms.len() && before(m, #[trigger] ms[k], e) && (ms[k].0 == e.0 || ms[k].1
                        == e.1);
                assert(ms2[k] == ms[k]);
            }
            if blocked(m, ms2, e) {
                let k = choose|k: int|
                    0 <= k < ms2.len() && before(m, #[trigger] ms2[k], e) && (ms2[k].0 == e.0
                        || ms2[k].1 == e.1);
                assert(k < ms.len());
                assert(ms[k] == ms2[k]);
            }
        }
    }
}

proof fn lemma_skip(
    m: Seq<Seq<u32>>,
    nt: nat,
    nf: nat,
    max: u32,
    ms: Seq<(usize, usize)>,
    taken_t: Seq<bool>,
    taken_f: Seq<bool>,
    d: int,
    t: usize,
    f: usize,
)
    requires
        scan_inv(m, nt, nf, max, ms, taken_t, taken_f, d, t as int, f as int),
        t < nt,
        f < nf,
        d <= max,
        dist_of(m, (t, f)) != d || taken_t[t as int] || taken_f[f as int],
    ensures
        scan_inv(m, nt, nf, max, ms, taken_t, taken_f, d, t as int, f + 1),
{
    let c = (t, f);
    assert forall|e: (usize, usize)|
        #[trigger] is_candidate(m, nt, nf, max, e) && before_cursor(m, e, d, t as int, f + 1) implies (
    ms.contains(e) <==> !blocked(m, ms, e)) by {
        if before_cursor(m, e, d, t as int, f as int) {
        } else {
            assert(e == c);
            assert(dist_of(m, c) == d);
            if ms.contains(e) {
                let k = choose|k: int| 0 <= k < ms.len() && ms[k] == e;
                assert(before_cursor(m, ms[k], d, t as int, f as int));
            }
            if taken_t[t as int] {
                let k = choose|k: int| 0 <= k < ms.len() && #[trigger] ms[k].0 == t;
                assert(before_cursor(m, ms[k], d, t as int, f as int));
                assert(before(m, ms[k], e));
            } else {
                let k = choose|k: int| 0 <= k < ms.len() && #[trigger] ms[k].1 == f;
                assert(before_cursor(m, ms[k], d, t as int, f as int));
                assert(before(m, ms[k], e));
            }
        }
    }
    assert forall|k: int| 0 <= k < ms.len() implies is_candidate(m, nt, nf, max, #[trigger] ms[k])
        && before_cursor(m, ms[k], d, t as int, f + 1) by {}
}

/// Considers the pairs of row `t` at distance `d`.
fn scan_row(m: &Vec<Vec<u32>>, nf: usize, max: u32, st: &mut Scan, d: u32, t: usize)
    requires
        t < m@.len(),
        d <= max,
        scan_inv(
            m@.map_values(|r: Vec<u32>| r@),
            m@.len(),
            nf as nat,
            max,
            old(st).ms@,
            old(st).taken_t@,
            old(st).taken_f@,
            d as int,
            t as int,
            0,
        ),
    ensures
        scan_inv(
            m@.map_values(|r: Vec<u32>| r@),
            m@.len(),
            nf as nat,
            max,
            final(st).ms@,
            final(st).taken_t@,
            final(st).taken_f@,
            d as int,
            t as int,
            nf as int,
        ),
{
    let ghost tab = m@.map_values(|r: Vec<u32>| r@);
    let ghost nt = m@.len();
    let mut f: usize = 0;
    while f < nf
        invariant
            t < m@.len(),
            d <= max,
            tab == m@.map_values(|r: Vec<u32>| r@),
            nt == m@.len(),
            f <= nf,
            scan_inv(tab, nt, nf as nat, max, st.ms@, st.taken_t@, st.taken_f@, d as int, t as int, f as int),
        decreases nf - f,
    {
        assert(tab[t as int] == m@[t as int]@);
        assert(tab[t as int].len() == nf);
        let dv = m[t][f];
        assert(dv == dist_of(tab, (t, f)));
        if dv == d && !st.taken_t[t] && !st.taken_f[f] {
            proof {
                lemma_take(tab, nt, nf as nat, max, st.ms@, st.taken_t@, st.taken_f@, d as int, t, f);
            }
            st.ms.push((t, f));
            st.taken_t.set(t, true);
            st.taken_f.set(f, true);
        } else {
            proof {
                lemma_skip(tab, nt, nf as nat, max, st.ms@, st.taken_t@, st.taken_f@, d as int, t, f);
            }
        }
        f = f + 1;
    }
}

/// Considers every pair at distance `d`.
fn scan_level(m: &Vec<Vec<u32>>, nf: usize, max: u32, st: &mut Scan, d: u32)
    requires
        d <= max,
        scan_inv(
            m@.map_values(|r: Vec<u32>| r@),
            m@.len(),
            nf as nat,
            max,
            old(st).ms@,
            old(st).taken_t@,
            old(st).taken_f@,
            d as int,
            0,
            0,
        ),
    ensures
        scan_inv(
            m@.map_values(|r: Vec<u32>| r@),
            m@.len(),
            nf as nat,
            max,
            final(st).ms@,
            final(st).taken_t@,
            final(st).taken_f@,
            d + 1,
            0,
            0,
        ),
{
    let ghost tab = m@.map_values(|r: Vec<u32>| r@);
    let ghost nt = m@.len();
    let mut t: usize = 0;
    while t < m.len()
        invariant
            d <= max,
            tab == m@.map_values(|r: Vec<u32>| r@),
            nt == m@.len(),
            t <= m@.len(),
            scan_inv(tab, nt, nf as nat, max, st.ms@, st.taken_t@, st.taken_f@, d as int, t as int, 0),
        decreases m@.len() - t,
    {
        scan_row(m, nf, max, st, d, t);
        proof {
            let ms = st.ms@;
            assert forall|c: (usize, usize)| #[trigger]
                is_candidate(tab, nt, nf as nat, max, c) implies (before_cursor(
                tab,
                c,
                d as int,
                t as int,
                nf as int,
            ) <==> before_cursor(tab, c, d as int, t + 1, 0)) by {}
            assert forall|k: int| 0 <= k < ms.len() implies is_candidate(
                tab,
                nt,
                nf as nat,
                max,
                #[trigger] ms[k],
            ) && before_cursor(tab, ms[k], d as int, t + 1, 0) by {}
        }
        t = t + 1;
    }
    proof {
        let ms = st.ms@;
        assert forall|c: (usize, usize)| #[trigger]
            is_candidate(tab, nt, nf as nat, max, c) implies (before_cursor(
            tab,
            c,
            d as int,
            nt as int,
            0,
        ) <==> before_cursor(tab, c, d + 1, 0, 0)) by {}
        assert forall|k: int| 0 <= k < ms.len() implies is_candidate(
            tab,
            nt,
            nf as nat,
            max,
            #[trigger] ms[k],
        ) && before_cursor(tab, ms[k], d + 1, 0, 0) by {}
    }
}

/// The greedy matching of a distance table: the pairs, in the order they are
/// taken.
fn greedy(m: &Vec<Vec<u32>>, nf: usize, max: u32) -> (res: (Vec<(usize, usize)>, Vec<bool>, Vec<bool>))
    requires
        is_table(m@.map_values(|r: Vec<u32>| r@), m@.len(), nf as nat),
    ensures
        is_greedy(m@.map_values(|r: Vec<u32>| r@), m@.len(), nf as nat, max, res.0@),
        res.1@.len() == m@.len(),
        res.2@.len() == nf,
        forall|x: int|
            0 <= x < m@.len() ==> (#[trigger] res.1@[x] <==> exists|k: int|
                0 <= k < res.0@.len() && #[trigger] res.0@[k].0 == x),
        forall|y: int|
            0 <= y < nf ==> (#[trigger] res.2@[y] <==> exists|k: int|
                0 <= k < res.0@.len() && #[trigger] res.0@[k].1 == y),
{
    let ghost tab = m@.map_values(|r: Vec<u32>| r@);
    let ghost nt = m@.len();
    // The largest distance in the table bounds the levels worth scanning.
    let mut top: u32 = 0;
    let mut t: usize = 0;
    while t < m.len()
        invariant
            tab == m@.map_values(|r: Vec<u32>| r@),
            is_table(tab, nt, nf as nat),
            nt == m@.len(),
            t <= nt,
            forall|a: int, b: int| 0 <= a < t && 0 <= b < nf ==> tab[a][b] <= top,
        decreases nt - t,
    {
        assert(tab[t as int] == m@[t as int]@);
        let mut f: usize = 0;
        while f < nf
            invariant
                tab == m@.map_values(|r: Vec<u32>| r@),
                is_table(tab, nt, nf as nat),
                nt == m@.len(),
                t < nt,
                f <= nf,
                forall|a: int, b: int| 0 <= a < t && 0 <= b < nf ==> tab[a][b] <= top,
                forall|b: int| 0 <= b < f ==> tab[t as int][b] <= top,
            decreases nf - f,
        {
            assert(tab[t as int] == m@[t as int]@);
            if m[t][f] > top {
                top = m[t][f];
            }
            f = f + 1;
        }
        t = t + 1;
    }
    let lim = if max < top {
        max
    } else {
        top
    };
    let mut st = Scan { ms: Vec::new(), taken_t: Vec::new(), taken_f: Vec::new() };
    let mut i: usize = 0;
    while i < m.len()
        invariant
            i <= m@.len(),
            st.ms@.len() == 0,
            st.taken_f@.len() == 0,
            st.taken_t@.len() == i,
            forall|x: int| 0 <= x < i ==> !st.taken_t@[x],
        decreases m@.len() - i,
    {
        st.taken_t.push(false);
        i = i + 1;
    }
    let mut j: usize = 0;
    while j < nf
        invariant
            nt == m@.len(),
            j <= nf,
            st.taken_t@.len() == nt,
            forall|x: int| 0 <= x < nt ==> !st.taken_t@[x],
            st.ms@.len() == 0,
            st.taken_f@.len() == j,
            forall|y: int| 0 <= y < j ==> !st.taken_f@[y],
        decreases nf - j,
    {
        st.taken_f.push(false);
        j = j + 1;
    }
    proof {
        let ms = st.ms@;
        assert forall|c: (usize, usize)| #[trigger] is_candidate(tab, nt, nf as nat, max, c) && before_cursor(
            tab,
            c,
            0,
            0,
            0,
        ) implies (ms.contains(c) <==> !blocked(tab, ms, c)) by {}
    }
    let mut d: u64 = 0;
    while d <= lim as u64
        invariant
            tab == m@.map_values(|r: Vec<u32>| r@),
            nt == m@.len(),
            lim <= max,
            lim <= top,
            d <= lim + 1,
            forall|a: int, b: int| 0 <= a < nt && 0 <= b < nf ==> tab[a][b] <= top,
            scan_inv(tab, nt, nf as nat, max, st.ms@, st.taken_t@, st.taken_f@, d as int, 0, 0),
        decreases lim + 1 - d,
    {
        scan_level(m, nf, max, &mut st, d as u32);
        d = d + 1;
    }
    proof {
        assert forall|c: (usize, usize)| #[trigger] is_candidate(tab, nt, nf as nat, max, c) implies before_cursor(
            tab,
            c,
            d as int,
            0,
            0,
        ) by {
            assert(tab[c.0 as int][c.1 as int] <= top);
        }
    }
    let ghost ms = st.ms@;
    let ghost tt = st.taken_t@;
    let ghost tf = st.taken_f@;
    assert(forall|x: int|
        0 <= x < nt ==> (#[trigger] tt[x] <==> exists|k: int| 0 <= k < ms.len() && #[trigger] ms[k].0 == x));
    assert(forall|y: int|
        0 <= y < nf ==> (#[trigger] tf[y] <==> exists|k: int| 0 <= k < ms.len() && #[trigger] ms[k].1 == y));
    let res = (st.ms, st.taken_t, st.taken_f);
    assert(res.0@ == ms && res.1@ == tt && res.2@ == tf);
    res
}

} // verus!

verus! {

/// The distance table of the thumbnails against the files.
pub open spec fn hash_table(thumbs: Seq<ThumbHash>, files: Seq<FileHash>) -> Seq<Seq<u32>> {
    Seq::new(
        thumbs.len(),
        |t: int| Seq::new(files.len(), |f: int| hamming(thumbs[t].hash@, files[f].hash@) as u32),
    )
}

/// Every thumbnail hash is small enough for its distances to be counted.
pub open spec fn thumbs_ok(thumbs: Seq<ThumbHash>) -> bool {
    forall|t: int| 0 <= t < thumbs.len() ==> hash_len_ok(#[trigger] thumbs[t].hash@)
}

proof fn lemma_hamming_bound(a: Seq<u8>, b: Seq<u8>)
    ensures
        hamming(a, b) <= 8 * a.len(),
    decreases a.len(),
{
    if a.len() > 0 && b.len() > 0 {
        lemma_bit_diff_bound(a[0] as nat, b[0] as nat, 8);
        lemma_hamming_bound(a.drop_first(), b.drop_first());
    }
}

/// The distance of every thumbnail to every file.
pub fn distance_table(thumbs: &Vec<ThumbHash>, files: &Vec<FileHash>) -> (m: Vec<Vec<u32>>)
    requires
        thumbs_ok(thumbs@),
    ensures
        m@.map_values(|r: Vec<u32>| r@) == hash_table(thumbs@, files@),
        is_table(m@.map_values(|r: Vec<u32>| r@), thumbs@.len(), files@.len()),
{
    let ghost want = hash_table(thumbs@, files@);
    let mut m: Vec<Vec<u32>> = Vec::new();
    let mut t: usize = 0;
    while t < thumbs.len()
        invariant
            thumbs_ok(thumbs@),
            want == hash_table(thumbs@, files@),
            t <= thumbs@.len(),
            m@.len() == t,
            forall|a: int| 0 <= a < t ==> #[trigger] m@[a]@ == want[a],
        decreases thumbs@.len() - t,
    {
        let mut row: Vec<u32> = Vec::new();
        let mut f: usize = 0;
        while f < files.len()
            invariant
                thumbs_ok(thumbs@),
                want == hash_table(thumbs@, files@),
                t < thumbs@.len(),
                f <= files@.len(),
                row@.len() == f,
                forall|b: int| 0 <= b < f ==> #[trigger] row@[b] == want[t as int][b],
            decreases files@.len() - f,
        {
            assert(hash_len_ok(thumbs@[t as int].hash@));
            let d = hash_distance(&thumbs[t].hash, &files[f].hash);
            proof {
                lemma_hamming_bound(thumbs@[t as int].hash@, files@[f as int].hash@);
            }
            row.push(d);
            f = f + 1;
        }
        assert(row@ == want[t as int]);
        m.push(row);
        t = t + 1;
    }
    assert(m@.map_values(|r: Vec<u32>| r@) == want);
    m
}

/// The greedy one-to-one matching of thumbnails to files within
/// `max_distance`: the pairs (thumbnail, file) in the order they are taken.
pub fn greedy_pairs(thumbs: &Vec<ThumbHash>, files: &Vec<FileHash>, max_distance: u32) -> (ms: Vec<(usize, usize)>)
    requires
        thumbs_ok(thumbs@),
    ensures
        is_greedy(hash_table(thumbs@, files@), thumbs@.len(), files@.len(), max_distance, ms@),
{
    let m = distance_table(thumbs, files);
    let (ms, _, _) = greedy(&m, files.len(), max_distance);
    ms
}

/// Thumbnail `t` is matched in `ms`.
pub open spec fn thumb_taken(ms: Seq<(usize, usize)>, t: int) -> bool {
    exists|k: int| 0 <= k < ms.len() && #[trigger] ms[k].0 == t
}

/// File `f` is matched in `ms`.
pub open spec fn file_taken(ms: Seq<(usize, usize)>, f: int) -> bool {
    exists|k: int| 0 <= k < ms.len() && #[trigger] ms[k].1 == f
}

/// The ids of the first `n` thumbnails that `ms` leaves unmatched, in order.
pub open spec fn unmatched_ids(thumbs: Seq<ThumbHash>, ms: Seq<(usize, usize)>, n: nat) -> Seq<u64>
    decreases n,
{
    if n == 0 {
        Seq::empty()
    } else {
        let rest = unmatched_ids(thumbs, ms, (n - 1) as nat);
        if thumb_taken(ms, n - 1) {
            rest
        } else {
            rest.push(thumbs[n - 1].image_id)
        }
    }
}

/// The paths of the first `n` files that `ms` leaves unmatched, in order.
pub open spec fn unmatched_paths(files: Seq<FileHash>, ms: Seq<(usize, usize)>, n: nat) -> Seq<Seq<char>>
    decreases n,
{
    if n == 0 {
        Seq::empty()
    } else {
        let rest = unmatched_paths(files, ms, (n - 1) as nat);
        if file_taken(ms, n - 1) {
            rest
        } else {
            rest.push(files[n - 1].path@)
        }
    }
}

/// `r` reports the matching `ms` of `thumbs` against `files`.
pub open spec fn reports(
    r: MatchResult,
    thumbs: Seq<ThumbHash>,
    files: Seq<FileHash>,
    ms: Seq<(usize, usize)>,
    max: u32,
) -> bool {
    &&& r.matches@.len() == ms.len()
    &&& forall|k: int|
        #![trigger r.matches@[k]]
        0 <= k < ms.len() ==> {
            let (t, f) = ms[k];
            let mk = r.matches@[k];
            &&& mk.image_id == thumbs[t as int].image_id
            &&& mk.thumbnail_path@ == thumbs[t as int].path@
            &&& mk.file_path@ == files[f as int].path@
            &&& mk.file_preview_path@ == files[f as int].preview_path@
            &&& mk.distance == hash_table(thumbs, files)[t as int][f as int]
        }
    &&& r.unmatched_thumbnails@ == unmatched_ids(thumbs, ms, thumbs.len())
    &&& r.unmatched_files@.map_values(|s: String| s@) == unmatched_paths(files, ms, files.len())
    &&& r.threshold == max
}

/// Matches thumbnails to replacement files: candidate pairs within
/// `max_distance` are taken closest first (ties by thumbnail, then file
/// order), each only while neither side is taken yet; what is left on
/// either side is reported in its original order.
pub fn match_hashes(thumbs: &Vec<ThumbHash>, files: &Vec<FileHash>, max_distance: u32) -> (r: MatchResult)
    requires
        thumbs_ok(thumbs@),
    ensures
        exists|ms: Seq<(usize, usize)>|
            is_greedy(hash_table(thumbs@, files@), thumbs@.len(), files@.len(), max_distance, ms)
                && reports(r, thumbs@, files@, ms, max_distance),
{
    let ghost tab = hash_table(thumbs@, files@);
    let m = distance_table(thumbs, files);
    let (ms, taken_t, taken_f) = greedy(&m, files.len(), max_distance);
    let mut matches: Vec<Match> = Vec::new();
    let mut k: usize = 0;
    while k < ms.len()
        invariant
            tab == hash_table(thumbs@, files@),
            m@.map_values(|r: Vec<u32>| r@) == tab,
            is_greedy(tab, thumbs@.len(), files@.len(), max_distance, ms@),
            k <= ms@.len(),
            matches@.len() == k,
            forall|j: int|
                #![trigger matches@[j]]
                0 <= j < k ==> {
                    let (t, f) = ms@[j];
                    let mk = matches@[j];
                    &&& mk.image_id == thumbs@[t as int].image_id
                    &&& mk.thumbnail_path@ == thumbs@[t as int].path@
                    &&& mk.file_path@ == files@[f as int].path@
                    &&& mk.file_preview_path@ == files@[f as int].preview_path@
                    &&& mk.distance == tab[t as int][f as int]
                },
        decreases ms@.len() - k,
    {
        let (t, f) = ms[k];
        assert(is_candidate(tab, thumbs@.len(), files@.len(), max_distance, ms@[k as int]));
        assert(m@.map_values(|r: Vec<u32>| r@).len() == m@.len());
        assert(m@.map_values(|r: Vec<u32>| r@)[t as int] == m@[t as int]@);
        assert(m@[t as int]@ == tab[t as int]);
        matches.push(
            Match {
                image_id: thumbs[t].image_id,
                thumbnail_path: to_string(thumbs[t].path.as_str()),
                file_path: to_string(files[f].path.as_str()),
                file_preview_path: to_string(files[f].preview_path.as_str()),
                distance: m[t][f],
            },
        );
        k = k + 1;
    }
    let mut unmatched_thumbnails: Vec<u64> = Vec::new();
    let mut t: usize = 0;
    while t < thumbs.len()
        invariant
            t <= thumbs@.len(),
            taken_t@.len() == thumbs@.len(),
            forall|x: int|
                0 <= x < thumbs@.len() ==> (#[trigger] taken_t@[x] <==> thumb_taken(ms@, x)),
            unmatched_thumbnails@ == unmatched_ids(thumbs@, ms@, t as nat),
        decreases thumbs@.len() - t,
    {
        if !taken_t[t] {
            unmatched_thumbnails.push(thumbs[t].image_id);
        }
        t = t + 1;
    }
    let mut unmatched_files: Vec<String> = Vec::new();
    let mut f: usize = 0;
    while f < files.len()
        invariant
            f <= files@.len(),
            taken_f@.len() == files@.len(),
            forall|y: int|
                0 <= y < files@.len() ==> (#[trigger] taken_f@[y] <==> file_taken(ms@, y)),
            unmatched_files@.map_values(|s: String| s@) == unmatched_paths(files@, ms@, f as nat),
        decreases files@.len() - f,
    {
        if !taken_f[f] {
            let p = to_string(files[f].path.as_str());
            unmatched_files.push(p);
            assert(unmatched_files@.map_values(|s: String| s@) == unmatched_paths(
                files@,
                ms@,
                f as nat,
            ).push(files@[f as int].path@));
        }
        f = f + 1;
    }
    let r = MatchResult { matches, unmatched_thumbnails, unmatched_files, threshold: max_distance };
    assert(reports(r, thumbs@, files@, ms@, max_distance));
    r
}

} // verus!

verus! {

/// No thumbnail and no file appears in two pairs of a greedy matching.
pub proof fn lemma_greedy_one_to_one(
    m: Seq<Seq<u32>>,
    nt: nat,
    nf: nat,
    max: u32,
    ms: Seq<(usize, usize)>,
    i: int,
    j: int,
)
    requires
        is_greedy(m, nt, nf, max, ms),
        0 <= i < j < ms.len(),
    ensures
        ms[i].0 != ms[j].0,
        ms[i].1 != ms[j].1,
{
    let c = ms[j];
    assert(is_candidate(m, nt, nf, max, c));
    assert(ms.contains(c));
    assert(before(m, ms[i], ms[j]));
    if ms[i].0 == c.0 || ms[i].1 == c.1 {
        assert(blocked(m, ms, c));
    }
}

/// Every pair in a greedy matching is within the threshold.
pub proof fn lemma_greedy_within(
    m: Seq<Seq<u32>>,
    nt: nat,
    nf: nat,
    max: u32,
    ms: Seq<(usize, usize)>,
    k: int,
)
    requires
        is_greedy(m, nt, nf, max, ms),
        0 <= k < ms.len(),
    ensures
        ms[k].0 < nt && ms[k].1 < nf,
        dist_of(m, ms[k]) <= max,
{
    assert(is_candidate(m, nt, nf, max, ms[k]));
}

/// A greedy matching leaves no pair within the threshold whose thumbnail and
/// file are both unmatched.
pub proof fn lemma_greedy_maximal(
    m: Seq<Seq<u32>>,
    nt: nat,
    nf: nat,
    max: u32,
    ms: Seq<(usize, usize)>,
    c: (usize, usize),
)
    requires
        is_greedy(m, nt, nf, max, ms),
        is_candidate(m, nt, nf, max, c),
    ensures
        thumb_taken(ms, c.0 as int) || file_taken(ms, c.1 as int),
{
    if ms.contains(c) {
        let k = choose|k: int| 0 <= k < ms.len() && ms[k] == c;
        assert(ms[k].0 == c.0);
    } else {
        assert(blocked(m, ms, c));
        let k = choose|k: int|
            0 <= k < ms.len() && before(m, #[trigger] ms[k], c) && (ms[k].0 == c.0 || ms[k].1 == c.1);
        if ms[k].0 == c.0 {
            assert(thumb_taken(ms, c.0 as int));
        } else {
            assert(file_taken(ms, c.1 as int));
        }
    }
}

proof fn lemma_diff_side(
    m: Seq<Seq<u32>>,
    nt: nat,
    nf: nat,
    max: u32,
    a: Seq<(usize, usize)>,
    b: Seq<(usize, usize)>,
    k: int,
)
    requires
        is_greedy(m, nt, nf, max, a),
        is_greedy(m, nt, nf, max, b),
        0 <= k < a.len(),
        k < b.len(),
        forall|j: int| 0 <= j < k ==> a[j] == b[j],
    ensures
        !before(m, a[k], b[k]),
{
    let x = a[k];
    let y = b[k];
    if !before(m, x, y) {
        return;
    }
    assert(is_candidate(m, nt, nf, max, x));
    assert(a.contains(x));
    assert(!blocked(m, a, x));
    if blocked(m, b, x) {
        let j = choose|j: int|
            0 <= j < b.len() && before(m, #[trigger] b[j], x) && (b[j].0 == x.0 || b[j].1 == x.1);
        if j < k {
            assert(a[j] == b[j]);
            assert(blocked(m, a, x));
        } else if j > k {
            assert(before(m, y, b[j]));
        }
    }
    assert(b.contains(x));
    let j = choose|j: int| 0 <= j < b.len() && b[j] == x;
    if j < k {
        assert(a[j] == b[j]);
        assert(before(m, a[j], a[k]));
    } else if j > k {
        assert(before(m, y, b[j]));
    }
}

proof fn lemma_len_side(
    m: Seq<Seq<u32>>,
    nt: nat,
    nf: nat,
    max: u32,
    a: Seq<(usize, usize)>,
    b: Seq<(usize, usize)>,
)
    requires
        is_greedy(m, nt, nf, max, a),
        is_greedy(m, nt, nf, max, b),
        forall|j: int| 0 <= j < b.len() && j < a.len() ==> a[j] == b[j],
    ensures
        a.len() <= b.len(),
{
    if a.len() <= b.len() {
        return;
    }
    let n = b.len() as int;
    let x = a[n];
    assert(is_candidate(m, nt, nf, max, x));
    assert(a.contains(x));
    if blocked(m, b, x) {
        let j = choose|j: int|
            0 <= j < b.len() && before(m, #[trigger] b[j], x) && (b[j].0 == x.0 || b[j].1 == x.1);
        assert(a[j] == b[j]);
        assert(blocked(m, a, x));
    }
    assert(b.contains(x));
    let j = choose|j: int| 0 <= j < b.len() && b[j] == x;
    assert(a[j] == b[j]);
    assert(before(m, a[j], a[n]));
}

proof fn lemma_agree(
    m: Seq<Seq<u32>>,
    nt: nat,
    nf: nat,
    max: u32,
    a: Seq<(usize, usize)>,
    b: Seq<(usize, usize)>,
    k: int,
)
    requires
        is_greedy(m, nt, nf, max, a),
        is_greedy(m, nt, nf, max, b),
        0 <= k,
    ensures
        forall|j: int| 0 <= j < k && j < a.len() && j < b.len() ==> a[j] == b[j],
    decreases k,
{
    if k > 0 {
        lemma_agree(m, nt, nf, max, a, b, k - 1);
        let j = k - 1;
        if j < a.len() && j < b.len() {
            lemma_diff_side(m, nt, nf, max, a, b, j);
            lemma_diff_side(m, nt, nf, max, b, a, j);
        }
    }
}

/// The greedy matching is determined by the table and the threshold: any two
/// sequences that satisfy its definition are the same.
pub proof fn lemma_greedy_unique(
    m: Seq<Seq<u32>>,
    nt: nat,
    nf: nat,
    max: u32,
    a: Seq<(usize, usize)>,
    b: Seq<(usize, usize)>,
)
    requires
        is_greedy(m, nt, nf, max, a),
        is_greedy(m, nt, nf, max, b),
    ensures
        a == b,
{
    let n = if a.len() > b.len() {
        a.len() as int
    } else {
        b.len() as int
    };
    lemma_agree(m, nt, nf, max, a, b, n);
    lemma_len_side(m, nt, nf, max, a, b);
    lemma_len_side(m, nt, nf, max, b, a);
    assert(a =~= b);
}

} // verus!

verus! {

/// Whether every thumbnail hash is small enough to be matched.
pub fn thumbs_within_limit(thumbs: &Vec<ThumbHash>) -> (res: bool)
    ensures
        res == thumbs_ok(thumbs@),
{
    for i in 0..thumbs.len()
        invariant
            forall|t: int| 0 <= t < i ==> hash_len_ok(#[trigger] thumbs@[t].hash@),
    {
        if thumbs[i].hash.len() >= 0x2000_0000 {
            return false;
        }
    }
    true
}

} // verus!

verus! {

/// Two to the `k`.
pub open spec fn two_to(k: nat) -> nat
    decreases k,
{
    if k == 0 {
        1
    } else {
        2 * two_to((k - 1) as nat)
    }
}

proof fn lemma_bit_diff_zero(a: nat, b: nat, k: nat)
    requires
        a < two_to(k),
        b < two_to(k),
    ensures
        bit_diff(a, b, k) == 0 <==> a == b,
    decreases k,
{
    if k == 0 {
    } else {
        let q = two_to((k - 1) as nat);
        assert(a / 2 < q && b / 2 < q) by (nonlinear_arith)
            requires
                a < 2 * q,
                b < 2 * q,
        ;
        lemma_bit_diff_zero(a / 2, b / 2, (k - 1) as nat);
        assert(a == 2 * (a / 2) + a % 2) by (nonlinear_arith);
        assert(b == 2 * (b / 2) + b % 2) by (nonlinear_arith);
    }
}

/// Two hashes of one length are at distance zero exactly when they are
/// equal: every differing bit, in whichever byte, counts.
pub proof fn lemma_hamming_zero_iff_equal(a: Seq<u8>, b: Seq<u8>)
    requires
        a.len() == b.len(),
    ensures
        hamming(a, b) == 0 <==> a == b,
    decreases a.len(),
{
    if a.len() > 0 {
        assert(two_to(8) == 256) by {
            reveal_with_fuel(two_to, 9);
        }
        lemma_bit_diff_zero(a[0] as nat, b[0] as nat, 8);
        lemma_hamming_zero_iff_equal(a.drop_first(), b.drop_first());
        if hamming(a, b) == 0 {
            assert(a =~= seq![a[0]] + a.drop_first());
            assert(b =~= seq![b[0]] + b.drop_first());
        }
        if a == b {
            assert(a.drop_first() == b.drop_first());
        }
    } else {
        assert(a =~= b);
    }
}

/// Changing one byte of a hash changes its distance to another by exactly
/// the change in that byte's differing bits: every byte position counts, in
/// full, toward the distance.
pub proof fn lemma_hamming_update(a: Seq<u8>, b: Seq<u8>, k: int, x: u8)
    requires
        a.len() == b.len(),
        0 <= k < a.len(),
    ensures
        hamming(a, b.update(k, x)) + bit_diff(a[k] as nat, b[k] as nat, 8) == hamming(a, b) + bit_diff(
            a[k] as nat,
            x as nat,
            8,
        ),
    decreases k,
{
    let c = b.update(k, x);
    if k == 0 {
        assert(c.drop_first() =~= b.drop_first());
    } else {
        assert(c.drop_first() =~= b.drop_first().update(k - 1, x));
        assert(c[0] == b[0]);
        lemma_hamming_update(a.drop_first(), b.drop_first(), k - 1, x);
    }
}

/// A single flipped bit, in any byte, is a distance of exactly one.
pub proof fn lemma_hamming_one_bit(a: Seq<u8>, k: int, x: u8)
    requires
        0 <= k < a.len(),
        bit_diff(a[k] as nat, x as nat, 8) == 1,
    ensures
        hamming(a, a.update(k, x)) == 1,
{
    lemma_hamming_zero_iff_equal(a, a);
    lemma_hamming_update(a, a, k, x);
    assert(two_to(8) == 256) by {
        reveal_with_fuel(two_to, 9);
    }
    lemma_bit_diff_zero(a[k] as nat, a[k] as nat, 8);
}

} // verus!
