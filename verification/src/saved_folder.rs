//! What a save leaves on disk, as the import's pre-flight reads it back.
use vstd::prelude::*;

use crate::hashcache::digits_value;
use crate::json::{json_parse, JsonValue};
use crate::preflight::{
    classify, entry_stem, files_for, files_step, fetched_names, has_stem, is_preflight_of, is_scan_of, license_known,
    no_files, table_view, FolderEntry, FolderScan, NameKind, PreflightPairView, PreflightResult,
    StemFilesView,
};
use crate::prepare::{
    is_prepare_ext, is_sidecar_json, lemma_saved_folder_passes, lemma_saved_image_name_classifies,
    lemma_saved_sidecar_name_classifies, lemma_six_digits_padding, pow10, save_stem, saved_entry,
    saved_files, saved_view, sidecar_check, SaveSidecar,
};
use crate::text::{
    decimal, digit_char, is_blank, is_digit, lemma_seq_lt_irreflexive, lemma_seq_lt_total,
    lemma_seq_lt_transitive, seq_lt, zero_pad,
};

verus! {

/// The value of a digit character.
pub open spec fn digit_value(c: char) -> nat {
    ((c as u32) - 48) as nat
}

proof fn lemma_value_of_decimal(m: nat)
    ensures
        digits_value(decimal(m)) == m,
        decimal(m).len() >= 1,
    decreases m,
{
    if m < 10 {
        let d = decimal(m);
        assert(d.drop_last().len() == 0);
        assert(digits_value(d.drop_last()) == 0);
        lemma_digit_char_value(m);
    } else {
        lemma_value_of_decimal(m / 10);
        let d = decimal(m);
        assert(d.drop_last() == decimal(m / 10));
        assert(d.last() == digit_char(m % 10));
        lemma_digit_char_value(m % 10);
    }
}

proof fn lemma_digit_char_value(d: nat)
    requires
        d < 10,
    ensures
        digit_value(digit_char(d)) == d,
        is_digit(digit_char(d)),
{
}

proof fn lemma_value_leading_zeros(z: nat, d: Seq<char>)
    ensures
        digits_value(Seq::new(z, |i: int| '0') + d) == digits_value(d),
    decreases d.len(),
{
    let zs = Seq::new(z, |i: int| '0');
    if d.len() == 0 {
        assert(zs + d =~= zs);
        lemma_value_zeros(z);
    } else {
        assert((zs + d).drop_last() =~= zs + d.drop_last());
        assert((zs + d).last() == d.last());
        lemma_value_leading_zeros(z, d.drop_last());
    }
}

proof fn lemma_value_zeros(z: nat)
    ensures
        digits_value(Seq::new(z, |i: int| '0')) == 0,
    decreases z,
{
    if z > 0 {
        assert(Seq::new(z, |i: int| '0').drop_last() =~= Seq::new((z - 1) as nat, |i: int| '0'));
        lemma_value_zeros((z - 1) as nat);
    }
}

/// A padded decimal spells its number.
pub(crate) proof fn lemma_value_of_padded(m: nat, k: nat)
    ensures
        digits_value(zero_pad(decimal(m), k)) == m,
{
    lemma_value_of_decimal(m);
    let d = decimal(m);
    if d.len() < k {
        lemma_value_leading_zeros((k - d.len()) as nat, d);
    }
}

/// The value of a run of digits, read from its first digit.
proof fn lemma_value_from_front(s: Seq<char>)
    requires
        s.len() >= 1,
    ensures
        digits_value(s) == digit_value(s[0]) * pow10((s.len() - 1) as nat) + digits_value(s.drop_first()),
    decreases s.len(),
{
    if s.len() == 1 {
        assert(s.drop_last().len() == 0);
        assert(digits_value(s.drop_last()) == 0);
        assert(s.drop_first().len() == 0);
        assert(digits_value(s.drop_first()) == 0);
        assert(pow10(0) == 1);
        assert(digit_value(s[0]) * 1 == digit_value(s[0])) by (nonlinear_arith);
    } else {
        let p = s.drop_last();
        lemma_value_from_front(p);
        let r = s.drop_first();
        assert(r.drop_last() =~= p.drop_first());
        assert(r.last() == s.last());
        let a = digit_value(s[0]);
        let q = pow10((p.len() - 1) as nat);
        let v1 = digits_value(p.drop_first());
        let dl = digit_value(s.last());
        assert(p[0] == s[0]);
        assert(pow10((s.len() - 1) as nat) == 10 * q);
        assert(digits_value(s) == digits_value(p) * 10 + dl);
        assert(digits_value(r) == v1 * 10 + dl);
        assert((a * q + v1) * 10 + dl == a * (10 * q) + (v1 * 10 + dl)) by (nonlinear_arith);
    }
}

proof fn lemma_digits_bound(s: Seq<char>)
    requires
        forall|i: int| 0 <= i < s.len() ==> is_digit(#[trigger] s[i]),
    ensures
        digits_value(s) < pow10(s.len()),
    decreases s.len(),
{
    if s.len() > 0 {
        assert forall|i: int| 0 <= i < s.drop_last().len() implies is_digit(#[trigger] s.drop_last()[i]) by {
            assert(s.drop_last()[i] == s[i]);
        }
        lemma_digits_bound(s.drop_last());
        let v = digits_value(s.drop_last());
        let d = digit_value(s.last());
        assert(is_digit(s[s.len() - 1]));
        assert(d < 10);
        assert(pow10(s.len()) == 10 * pow10(s.drop_last().len()));
        lemma_times_ten_bound(v, d, pow10(s.drop_last().len()));
    } else {
        assert(pow10(0) == 1);
    }
}

proof fn lemma_times_ten_bound(v: nat, d: nat, p: nat)
    requires
        v < p,
    ensures
        d < 10 ==> v * 10 + d < 10 * p,
{
    assert(d < 10 ==> v * 10 + d < 10 * p) by (nonlinear_arith)
        requires
            v < p,
    ;
}

/// Of two runs of digits of one length, the one that sorts first spells the
/// smaller number.
proof fn lemma_lt_means_smaller(s: Seq<char>, t: Seq<char>)
    requires
        s.len() == t.len(),
        forall|i: int| 0 <= i < s.len() ==> is_digit(#[trigger] s[i]),
        forall|i: int| 0 <= i < t.len() ==> is_digit(#[trigger] t[i]),
        seq_lt(s, t),
    ensures
        digits_value(s) < digits_value(t),
    decreases s.len(),
{
    lemma_value_from_front(s);
    lemma_value_from_front(t);
    let p = pow10((s.len() - 1) as nat);
    let rs = s.drop_first();
    let rt = t.drop_first();
    if s[0] != t[0] {
        lemma_digits_bound(rs);
        let a = digit_value(s[0]);
        let b = digit_value(t[0]);
        assert(a < b);
        let vs = digits_value(rs);
        let vt = digits_value(rt);
        assert(a * p + vs < b * p + vt) by (nonlinear_arith)
            requires
                a < b,
                vs < p,
        ;
    } else {
        assert forall|i: int| 0 <= i < rs.len() implies is_digit(#[trigger] rs[i]) by {
            assert(rs[i] == s[i + 1]);
        }
        assert forall|i: int| 0 <= i < rt.len() implies is_digit(#[trigger] rt[i]) by {
            assert(rt[i] == t[i + 1]);
        }
        lemma_lt_means_smaller(rs, rt);
    }
}

/// The stems a save hands out sort in the order of the images.
pub proof fn lemma_save_stems_ascending(a: nat, b: nat)
    requires
        a < b,
        b + 1 < 1_000_000,
    ensures
        seq_lt(save_stem(a), save_stem(b)),
{
    let sa = save_stem(a);
    let sb = save_stem(b);
    lemma_six_digits_padding(a + 1, sa);
    lemma_six_digits_padding(b + 1, sb);
    lemma_value_of_padded(a + 1, 6);
    lemma_value_of_padded(b + 1, 6);
    if !seq_lt(sa, sb) {
        if sa == sb {
            assert(false);
        } else {
            lemma_seq_lt_total(sa, sb);
            lemma_lt_means_smaller(sb, sa);
        }
    }
}

/// Different images get different stems.
proof fn lemma_save_stem_injective(a: nat, b: nat)
    requires
        save_stem(a) == save_stem(b),
    ensures
        a == b,
{
    lemma_value_of_padded(a + 1, 6);
    lemma_value_of_padded(b + 1, 6);
}

/// `e` is the readable file `name` at `path`.
pub open spec fn entry_is(e: FolderEntry, name: Seq<char>, path: Seq<char>) -> bool {
    match e {
        FolderEntry::File { name: n, path: p } => n@ == name && p@ == path,
        FolderEntry::Unreadable(_) => false,
    }
}

/// Entry `j` is the sidecar or the image of one of the `n` images.
pub open spec fn is_listed(n: nat, sidecar_at: Seq<int>, image_at: Seq<int>, j: int) -> bool {
    exists|i: int| #[trigger] listed_as(n, sidecar_at, image_at, j, i)
}

/// Entry `j` is the sidecar or the image of image `i`, one of `n`.
pub open spec fn listed_as(n: nat, sidecar_at: Seq<int>, image_at: Seq<int>, j: int, i: int) -> bool {
    0 <= i < n && (sidecar_at[i] == j || image_at[i] == j)
}

/// What the pre-flight makes of a readable file's name.
pub open spec fn file_kind(e: FolderEntry) -> Option<NameKind> {
    match e {
        FolderEntry::File { name, path } => Some(classify(name@)),
        FolderEntry::Unreadable(_) => None,
    }
}

/// `es` lists exactly the files that a save of `n` images wrote: for image
/// `i`, its sidecar `NNNNNN.json` (the stem of position `i`) at
/// `sidecar_paths[i]`, found at `sidecar_at[i]`, and its image
/// `image_names[i]` (the stem, a dot and a supported lower-case extension)
/// at `image_paths[i]`, found at `image_at[i]`; every entry is one of them.
pub open spec fn is_saved_listing(
    es: Seq<FolderEntry>,
    n: nat,
    sidecar_paths: Seq<Seq<char>>,
    image_names: Seq<Seq<char>>,
    image_paths: Seq<Seq<char>>,
    exts: Seq<Seq<char>>,
    sidecar_at: Seq<int>,
    image_at: Seq<int>,
) -> bool {
    &&& sidecar_paths.len() == n && image_names.len() == n && image_paths.len() == n
    &&& exts.len() == n && sidecar_at.len() == n && image_at.len() == n
    &&& forall|i: int|
        0 <= i < n ==> {
            &&& is_prepare_ext(#[trigger] exts[i])
            &&& image_names[i] == save_stem(i as nat) + "."@ + exts[i]
            &&& 0 <= sidecar_at[i] < es.len()
            &&& entry_is(es[sidecar_at[i]], save_stem(i as nat) + ".json"@, sidecar_paths[i])
            &&& 0 <= image_at[i] < es.len()
            &&& entry_is(es[image_at[i]], image_names[i], image_paths[i])
        }
    &&& forall|j: int| 0 <= j < es.len() ==> #[trigger] is_listed(n, sidecar_at, image_at, j)
}

/// What the pre-flight makes of entry `j` of a saved listing: the sidecar or
/// the image of the image it belongs to.
proof fn lemma_listing_entry(
    es: Seq<FolderEntry>,
    n: nat,
    sidecar_paths: Seq<Seq<char>>,
    image_names: Seq<Seq<char>>,
    image_paths: Seq<Seq<char>>,
    exts: Seq<Seq<char>>,
    sidecar_at: Seq<int>,
    image_at: Seq<int>,
    j: int,
) -> (i: int)
    requires
        n < 1_000_000,
        is_saved_listing(es, n, sidecar_paths, image_names, image_paths, exts, sidecar_at, image_at),
        0 <= j < es.len(),
    ensures
        0 <= i < n,
        sidecar_at[i] == j || image_at[i] == j,
        sidecar_at[i] == j ==> file_kind(es[j]) == Some(NameKind::Sidecar(save_stem(i as nat))),
        image_at[i] == j ==> file_kind(es[j]) == Some(NameKind::Image(save_stem(i as nat))),
{
    assert(is_listed(n, sidecar_at, image_at, j));
    let i = choose|i: int| #[trigger] listed_as(n, sidecar_at, image_at, j, i);
    assert(is_prepare_ext(exts[i]));
    lemma_six_digits_padding((i + 1) as nat, save_stem(i as nat));
    if sidecar_at[i] == j {
        lemma_saved_sidecar_name_classifies(save_stem(i as nat));
    }
    if image_at[i] == j {
        lemma_saved_image_name_classifies(save_stem(i as nat), exts[i]);
    }
    i
}

/// The sidecar and the image of image `i` read as such.
proof fn lemma_own_entries(
    es: Seq<FolderEntry>,
    n: nat,
    sidecar_paths: Seq<Seq<char>>,
    image_names: Seq<Seq<char>>,
    image_paths: Seq<Seq<char>>,
    exts: Seq<Seq<char>>,
    sidecar_at: Seq<int>,
    image_at: Seq<int>,
    i: int,
)
    requires
        n < 1_000_000,
        is_saved_listing(es, n, sidecar_paths, image_names, image_paths, exts, sidecar_at, image_at),
        0 <= i < n,
    ensures
        0 <= sidecar_at[i] < es.len(),
        0 <= image_at[i] < es.len(),
        sidecar_at[i] != image_at[i],
        file_kind(es[sidecar_at[i]]) == Some(NameKind::Sidecar(save_stem(i as nat))),
        file_kind(es[image_at[i]]) == Some(NameKind::Image(save_stem(i as nat))),
        entry_is(es[sidecar_at[i]], save_stem(i as nat) + ".json"@, sidecar_paths[i]),
        entry_is(es[image_at[i]], image_names[i], image_paths[i]),
{
    assert(is_prepare_ext(exts[i]));
    lemma_six_digits_padding((i + 1) as nat, save_stem(i as nat));
    lemma_saved_sidecar_name_classifies(save_stem(i as nat));
    lemma_saved_image_name_classifies(save_stem(i as nat), exts[i]);
}

/// The files of image `i`'s stem among the first `m` entries of a saved
/// listing.
proof fn lemma_listing_files(
    es: Seq<FolderEntry>,
    n: nat,
    sidecar_paths: Seq<Seq<char>>,
    image_names: Seq<Seq<char>>,
    image_paths: Seq<Seq<char>>,
    exts: Seq<Seq<char>>,
    sidecar_at: Seq<int>,
    image_at: Seq<int>,
    i: int,
    m: int,
)
    requires
        n < 1_000_000,
        is_saved_listing(es, n, sidecar_paths, image_names, image_paths, exts, sidecar_at, image_at),
        0 <= i < n,
        0 <= m <= es.len(),
    ensures
        files_for(es.take(m), save_stem(i as nat)) == (StemFilesView {
            stem: save_stem(i as nat),
            sidecar: if sidecar_at[i] < m {
                Some(sidecar_paths[i])
            } else {
                None
            },
            done: None,
            image: if image_at[i] < m {
                Some((image_names[i], image_paths[i]))
            } else {
                None
            },
            strays: Seq::empty(),
        }),
    decreases m,
{
    let k = save_stem(i as nat);
    lemma_own_entries(es, n, sidecar_paths, image_names, image_paths, exts, sidecar_at, image_at, i);
    if m == 0 {
        assert(es.take(0).len() == 0);
        assert(files_for(es.take(0), k) == no_files(k));
    } else {
        lemma_listing_files(es, n, sidecar_paths, image_names, image_paths, exts, sidecar_at, image_at, i, m - 1);
        assert(es.take(m).drop_last() =~= es.take(m - 1));
        assert(es.take(m).last() == es[m - 1]);
        let f = files_for(es.take(m - 1), k);
        assert(files_for(es.take(m), k) == files_step(f, es[m - 1]));
        let i2 = lemma_listing_entry(
            es,
            n,
            sidecar_paths,
            image_names,
            image_paths,
            exts,
            sidecar_at,
            image_at,
            m - 1,
        );
        if save_stem(i2 as nat) == k {
            lemma_save_stem_injective(i2 as nat, i as nat);
            assert(i2 == i);
        } else {
            assert(sidecar_at[i] != m - 1);
            assert(image_at[i] != m - 1);
        }
    }
}

/// Two strictly ascending sequences with the same elements are the same.
proof fn lemma_sorted_same_elements(a: Seq<Seq<char>>, b: Seq<Seq<char>>)
    requires
        forall|i: int, j: int| 0 <= i < j < a.len() ==> seq_lt(a[i], a[j]),
        forall|i: int, j: int| 0 <= i < j < b.len() ==> seq_lt(b[i], b[j]),
        forall|x: Seq<char>| a.contains(x) <==> b.contains(x),
    ensures
        a == b,
    decreases a.len(),
{
    if a.len() == 0 {
        if b.len() > 0 {
            assert(b.contains(b[0]));
        }
    } else {
        assert(a.contains(a[0]));
        assert(b.len() > 0);
        assert(b.contains(b[0]));
        if a[0] != b[0] {
            let ja = choose|j: int| 0 <= j < b.len() && b[j] == a[0];
            let jb = choose|j: int| 0 <= j < a.len() && a[j] == b[0];
            lemma_seq_lt_total(a[0], b[0]);
            if seq_lt(a[0], b[0]) {
                assert(ja > 0);
                assert(seq_lt(b[0], b[ja]));
                lemma_seq_lt_transitive(a[0], b[0], a[0]);
                lemma_seq_lt_irreflexive(a[0]);
            } else {
                assert(jb > 0);
                assert(seq_lt(a[0], a[jb]));
                lemma_seq_lt_transitive(b[0], a[0], b[0]);
                lemma_seq_lt_irreflexive(b[0]);
            }
        }
        let ra = a.drop_first();
        let rb = b.drop_first();
        assert forall|x: Seq<char>| ra.contains(x) <==> rb.contains(x) by {
            if ra.contains(x) {
                let j = choose|j: int| 0 <= j < ra.len() && ra[j] == x;
                assert(a[j + 1] == x);
                assert(seq_lt(a[0], x));
                assert(b.contains(x));
                let jb = choose|jb: int| 0 <= jb < b.len() && b[jb] == x;
                if jb == 0 {
                    lemma_seq_lt_irreflexive(x);
                }
                assert(rb[jb - 1] == x);
            }
            if rb.contains(x) {
                let j = choose|j: int| 0 <= j < rb.len() && rb[j] == x;
                assert(b[j + 1] == x);
                assert(seq_lt(b[0], x));
                assert(a.contains(x));
                let ja = choose|ja: int| 0 <= ja < a.len() && a[ja] == x;
                if ja == 0 {
                    lemma_seq_lt_irreflexive(x);
                }
                assert(ra[ja - 1] == x);
            }
        }
        lemma_sorted_same_elements(ra, rb);
        assert(a =~= seq![a[0]] + ra);
        assert(b =~= seq![b[0]] + rb);
    }
}

/// The pre-flight's table of a saved listing holds, stem by stem in order,
/// exactly the files that the save wrote for each image.
pub proof fn lemma_saved_listing_table(
    scan: FolderScan,
    es: Seq<FolderEntry>,
    n: nat,
    sidecar_paths: Seq<Seq<char>>,
    image_names: Seq<Seq<char>>,
    image_paths: Seq<Seq<char>>,
    exts: Seq<Seq<char>>,
    sidecar_at: Seq<int>,
    image_at: Seq<int>,
)
    requires
        n < 1_000_000,
        is_scan_of(scan, es),
        is_saved_listing(es, n, sidecar_paths, image_names, image_paths, exts, sidecar_at, image_at),
    ensures
        table_view(scan.stems@) == Seq::new(
            n,
            |i: int| saved_files(i as nat, sidecar_paths[i], image_names[i], image_paths[i]),
        ),
        forall|j: int| 0 <= j < es.len() ==> #[trigger] saved_entry(es[j]),
{
    let t = table_view(scan.stems@);
    let z = Seq::new(n, |i: int| save_stem(i as nat));
    let ts = t.map_values(|f: StemFilesView| f.stem);
    assert forall|j: int| 0 <= j < es.len() implies #[trigger] saved_entry(es[j]) by {
        let _ = lemma_listing_entry(es, n, sidecar_paths, image_names, image_paths, exts, sidecar_at, image_at, j);
    }
    assert forall|x: Seq<char>| ts.contains(x) <==> z.contains(x) by {
        if ts.contains(x) {
            let i = choose|i: int| 0 <= i < ts.len() && ts[i] == x;
            assert(t[i].stem == x);
            assert(has_stem(es, x));
            let j = choose|j: int| 0 <= j < es.len() && entry_stem(#[trigger] es[j]) == Some(x);
            let i2 = lemma_listing_entry(es, n, sidecar_paths, image_names, image_paths, exts, sidecar_at, image_at, j);
            assert(z[i2] == x);
        }
        if z.contains(x) {
            let i = choose|i: int| 0 <= i < z.len() && z[i] == x;
            let j = sidecar_at[i];
            lemma_own_entries(es, n, sidecar_paths, image_names, image_paths, exts, sidecar_at, image_at, i);
            assert(entry_stem(es[j]) == Some(x));
            assert(has_stem(es, x));
            let k = choose|k: int| 0 <= k < t.len() && (#[trigger] t[k]).stem == x;
            assert(ts[k] == x);
        }
    }
    assert forall|a: int, b: int| 0 <= a < b < z.len() implies seq_lt(z[a], z[b]) by {
        lemma_save_stems_ascending(a as nat, b as nat);
    }
    assert forall|a: int, b: int| 0 <= a < b < ts.len() implies seq_lt(ts[a], ts[b]) by {
        assert(seq_lt(t[a].stem, t[b].stem));
    }
    lemma_sorted_same_elements(ts, z);
    assert(t.len() == n);
    assert forall|i: int| 0 <= i < n implies #[trigger] t[i] == saved_files(
        i as nat,
        sidecar_paths[i],
        image_names[i],
        image_paths[i],
    ) by {
        assert(ts[i] == z[i]);
        assert(ts[i] == t[i].stem);
        assert(t[i].stem == save_stem(i as nat));
        assert(t[i] == files_for(es, t[i].stem));
        lemma_own_entries(es, n, sidecar_paths, image_names, image_paths, exts, sidecar_at, image_at, i);
        lemma_listing_files(
            es,
            n,
            sidecar_paths,
            image_names,
            image_paths,
            exts,
            sidecar_at,
            image_at,
            i,
            es.len() as int,
        );
        assert(es.take(es.len() as int) =~= es);
    }
    assert(t =~= Seq::new(
        n,
        |i: int| saved_files(i as nat, sidecar_paths[i], image_names[i], image_paths[i]),
    ));
}

} // verus!

verus! {

/// A folder written by a save passes the import's pre-flight, as the
/// module's documentation promises: where the folder lists exactly the
/// files that a save of `n` images (fewer than a million) wrote, each
/// sidecar reads back as the JSON the save wrote for metadata that passed
/// the save's checks, and each license is blank or known to the server, the
/// pre-flight reports no error and no committed pair, and lists every image
/// as pending, in order, under the stems `000001`, `000002`, ..., with
/// exactly its saved metadata, title included.
pub proof fn lemma_saved_listing_passes(
    res: PreflightResult,
    folder: Seq<char>,
    scan: FolderScan,
    es: Seq<FolderEntry>,
    fetched: Option<Result<Seq<Seq<char>>, Seq<char>>>,
    reads: Seq<Option<Result<Seq<char>, Seq<char>>>>,
    sidecar_paths: Seq<Seq<char>>,
    image_names: Seq<Seq<char>>,
    image_paths: Seq<Seq<char>>,
    exts: Seq<Seq<char>>,
    sidecar_at: Seq<int>,
    image_at: Seq<int>,
    raws: Seq<Seq<char>>,
    jsons: Seq<JsonValue>,
    sidecars: Seq<SaveSidecar>,
)
    requires
        sidecars.len() < 1_000_000,
        is_scan_of(scan, es),
        is_preflight_of(res, folder, scan, fetched, reads),
        is_saved_listing(
            es,
            sidecars.len(),
            sidecar_paths,
            image_names,
            image_paths,
            exts,
            sidecar_at,
            image_at,
        ),
        raws.len() == sidecars.len(),
        jsons.len() == sidecars.len(),
        reads.len() == sidecars.len(),
        !(fetched is Some && fetched->0 is Err),
        forall|i: int|
            0 <= i < sidecars.len() ==> {
                &&& reads[i] == Some(Ok::<Seq<char>, Seq<char>>(raws[i]))
                &&& json_parse(raws[i]) == Ok::<JsonValue, Seq<char>>(jsons[i])
                &&& is_sidecar_json(jsons[i], image_names[i], sidecars[i])
                &&& sidecar_check(#[trigger] sidecars[i]) is Ok
                &&& !is_blank(sidecars[i].license_name@) ==> license_known(
                    sidecars[i].license_name@,
                    fetched_names(fetched),
                )
            },
    ensures
        res.errors@.len() == 0,
        res.completed@.len() == 0,
        res.pending@.len() == sidecars.len(),
        forall|i: int|
            0 <= i < sidecars.len() ==> #[trigger] res.pending@[i]@ == (PreflightPairView {
                stem: save_stem(i as nat),
                sidecar_path: sidecar_paths[i],
                image_path: image_paths[i],
                sidecar: saved_view(image_names[i], sidecars[i]),
            }),
{
    let n = sidecars.len();
    lemma_saved_listing_table(scan, es, n, sidecar_paths, image_names, image_paths, exts, sidecar_at, image_at);
    assert forall|i: int| 0 <= i < n implies #[trigger] image_names[i].len() > 0 by {
        assert(is_prepare_ext(exts[i]));
        assert(image_names[i] == save_stem(i as nat) + "."@ + exts[i]);
    }
    lemma_saved_folder_passes(
        res,
        folder,
        scan,
        es,
        fetched,
        reads,
        sidecar_paths,
        image_names,
        image_paths,
        raws,
        jsons,
        sidecars,
    );
}

} // verus!
