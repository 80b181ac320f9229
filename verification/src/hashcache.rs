//! The per-collection hash caches that feed the matcher: thumbnail hashes
//! keyed by image id, folder-file hashes keyed by path, and the checks that
//! decide which entries are usable.
use vstd::prelude::*;

use crate::matching::{FileHash, ThumbHash};
use crate::paths::{join, join_path, lower_extension, lower_extension_of, path_extension, path_stem, path_stem_of};
use crate::text::{
    ascii_lowered, chars_of, decimal, decimal_string, is_ascii_text, is_digit, push_str, str_eq, to_string,
};

verus! {

/// The value of a run of decimal digits.
pub open spec fn digits_value(s: Seq<char>) -> nat
    decreases s.len(),
{
    if s.len() == 0 {
        0
    } else {
        digits_value(s.drop_last()) * 10 + ((s.last() as u32) - 48) as nat
    }
}

/// Every character of `s` is an ASCII digit.
pub open spec fn all_digits(s: Seq<char>) -> bool {
    forall|i: int| 0 <= i < s.len() ==> is_digit(#[trigger] s[i])
}

/// What `str::parse::<u64>` makes of `s`: an optional `+`, then one or more
/// digits whose value fits in 64 bits.
pub open spec fn parse_u64(s: Seq<char>) -> Option<u64> {
    let body = if s.len() > 0 && s[0] == '+' {
        s.drop_first()
    } else {
        s
    };
    if body.len() > 0 && all_digits(body) && digits_value(body) <= u64::MAX {
        Some(digits_value(body) as u64)
    } else {
        None
    }
}

proof fn lemma_digits_prefix(s: Seq<char>, j: int)
    requires
        0 <= j <= s.len(),
        all_digits(s),
    ensures
        digits_value(s.take(j)) <= digits_value(s),
    decreases s.len() - j,
{
    if j < s.len() {
        lemma_digits_prefix(s, j + 1);
        assert(s.take(j + 1).drop_last() == s.take(j));
    } else {
        assert(s.take(j) == s);
    }
}

/// Parses a decimal `u64` the way `str::parse` does.
pub fn parse_u64_str(s: &str) -> (res: Option<u64>)
    ensures
        res == parse_u64(s@),
{
    let cs = chars_of(s);
    let start: usize = if cs.len() > 0 && cs[0] == '+' {
        1
    } else {
        0
    };
    let ghost body = if s@.len() > 0 && s@[0] == '+' {
        s@.drop_first()
    } else {
        s@
    };
    assert(body == cs@.skip(start as int));
    if start == cs.len() {
        return None;
    }
    let mut v: u64 = 0;
    let mut i: usize = start;
    assert(body.take(0) =~= Seq::<char>::empty());
    while i < cs.len()
        invariant
            cs@ == s@,
            body == cs@.skip(start as int),
            body == (if s@.len() > 0 && s@[0] == '+' {
                s@.drop_first()
            } else {
                s@
            }),
            start <= i <= cs@.len(),
            v == digits_value(body.take(i - start)),
            forall|j: int| start <= j < i ==> is_digit(#[trigger] cs@[j]),
        decreases cs@.len() - i,
    {
        let c = cs[i];
        if !('0' <= c && c <= '9') {
            assert(!all_digits(body)) by {
                assert(body[i - start] == c);
                assert(!is_digit(body[i - start]));
            }
            return None;
        }
        let d = (c as u32 - 48) as u64;
        assert(body.take(i + 1 - start).drop_last() == body.take(i - start));
        assert(body.take(i + 1 - start).last() == c);
        assert(digits_value(body.take(i + 1 - start)) == v * 10 + d);
        match v.checked_mul(10) {
            None => {
                proof {
                    if all_digits(body) {
                        lemma_digits_prefix(body, i + 1 - start);
                    }
                }
                return None;
            },
            Some(w) => match w.checked_add(d) {
                None => {
                    proof {
                        if all_digits(body) {
                            lemma_digits_prefix(body, i + 1 - start);
                        }
                    }
                    return None;
                },
                Some(x) => {
                    v = x;
                },
            },
        }
        i = i + 1;
    }
    assert(body.take(i - start) == body);
    assert(all_digits(body)) by {
        assert forall|j: int| 0 <= j < body.len() implies is_digit(#[trigger] body[j]) by {
            assert(body[j] == cs@[j + start]);
        }
    }
    Some(v)
}

/// The image id a cached thumbnail's file name carries: its stem, parsed.
pub open spec fn thumb_id_of(path: Seq<char>) -> Option<u64> {
    match path_stem(path) {
        Some(s) => parse_u64(s),
        None => None,
    }
}

/// The image id of the thumbnail stored at `path`, if its stem is one.
pub fn thumb_id(path: &str) -> (res: Option<u64>)
    ensures
        res == thumb_id_of(path@),
{
    match path_stem_of(path) {
        Some(s) => parse_u64_str(s.as_str()),
        None => None,
    }
}

/// The value stored under `key` in a list of string pairs read from a JSON
/// map (its keys are distinct), if any.
pub open spec fn lookup(m: Seq<(String, String)>, key: Seq<char>) -> Option<Seq<char>>
    decreases m.len(),
{
    if m.len() == 0 {
        None
    } else if m[0].0@ == key {
        Some(m[0].1@)
    } else {
        lookup(m.drop_first(), key)
    }
}

/// The position of the first entry under `key`.
fn find_key(m: &Vec<(String, String)>, key: &str) -> (res: Option<usize>)
    ensures
        match res {
            Some(i) => i < m@.len() && m@[i as int].0@ == key@ && lookup(m@, key@) == Some(
                m@[i as int].1@,
            ),
            None => lookup(m@, key@) is None,
        },
{
    let mut i: usize = 0;
    assert(m@.skip(0) == m@);
    while i < m.len()
        invariant
            i <= m@.len(),
            lookup(m@, key@) == lookup(m@.skip(i as int), key@),
        decreases m@.len() - i,
    {
        assert(m@.skip(i as int).drop_first() == m@.skip(i + 1));
        if str_eq(m[i].0.as_str(), key) {
            return Some(i);
        }
        i = i + 1;
    }
    None
}

/// The value stored under `key`.
pub fn lookup_str(m: &Vec<(String, String)>, key: &str) -> (res: Option<String>)
    ensures
        match res {
            Some(v) => lookup(m@, key@) == Some(v@),
            None => lookup(m@, key@) is None,
        },
{
    match find_key(m, key) {
        Some(i) => Some(to_string(m[i].1.as_str())),
        None => None,
    }
}

/// The positions of the thumbnails whose id has no stored hash, in order.
pub open spec fn is_missing_list(ids: Seq<u64>, hashes: Seq<(String, String)>, out: Seq<usize>) -> bool {
    &&& forall|k: int| 0 <= k < out.len() ==> #[trigger] out[k] < ids.len()
    &&& forall|a: int, b: int| 0 <= a < b < out.len() ==> out[a] < out[b]
    &&& forall|i: int|
        0 <= i < ids.len() ==> (out.contains(i as usize) <==> lookup(
            hashes,
            decimal(#[trigger] ids[i] as nat),
        ) is None)
}

/// The thumbnails, by position, that still need hashing.
pub fn missing_hashes(ids: &Vec<u64>, hashes: &Vec<(String, String)>) -> (out: Vec<usize>)
    ensures
        is_missing_list(ids@, hashes@, out@),
{
    let mut out: Vec<usize> = Vec::new();
    for i in 0..ids.len()
        invariant
            forall|k: int| 0 <= k < out@.len() ==> #[trigger] out@[k] < i,
            forall|a: int, b: int| 0 <= a < b < out@.len() ==> out@[a] < out@[b],
            forall|j: int|
                0 <= j < i ==> (out@.contains(j as usize) <==> lookup(
                    hashes@,
                    decimal(#[trigger] ids@[j] as nat),
                ) is None),
    {
        let key = decimal_string(ids[i]);
        let ghost before = out@;
        if find_key(hashes, key.as_str()).is_none() {
            out.push(i);
            proof {
                assert(out@[before.len() as int] == i);
                assert forall|j: int| #![trigger ids@[j]] 0 <= j < i implies (out@.contains(j as usize) <==> before.contains(
                    j as usize,
                )) by {
                    if out@.contains(j as usize) {
                        let k = choose|k: int| 0 <= k < out@.len() && out@[k] == j as usize;
                        if k < before.len() {
                            assert(before[k] == out@[k]);
                        }
                    }
                    if before.contains(j as usize) {
                        let k = choose|k: int| 0 <= k < before.len() && before[k] == j as usize;
                        assert(out@[k] == before[k]);
                    }
                }
            }
        } else {
            proof {
                assert(!out@.contains(i));
            }
        }
    }
    out
}

/// Every key of `m` occurs once.
pub open spec fn keys_unique(m: Seq<(String, String)>) -> bool {
    forall|a: int, b: int| 0 <= a < b < m.len() ==> m[a].0@ != m[b].0@
}

proof fn lemma_lookup_at(m: Seq<(String, String)>, i: int)
    requires
        keys_unique(m),
        0 <= i < m.len(),
    ensures
        lookup(m, m[i].0@) == Some(m[i].1@),
    decreases i,
{
    if i > 0 {
        assert(keys_unique(m.drop_first()));
        lemma_lookup_at(m.drop_first(), i - 1);
    }
}

proof fn lemma_lookup_absent(m: Seq<(String, String)>, key: Seq<char>)
    requires
        forall|i: int| 0 <= i < m.len() ==> m[i].0@ != key,
    ensures
        lookup(m, key) is None,
    decreases m.len(),
{
    if m.len() > 0 {
        lemma_lookup_absent(m.drop_first(), key);
    }
}

proof fn lemma_lookup_found(m: Seq<(String, String)>, key: Seq<char>)
    requires
        lookup(m, key) is Some,
    ensures
        exists|i: int| 0 <= i < m.len() && m[i].0@ == key && lookup(m, key) == Some(m[i].1@),
    decreases m.len(),
{
    if m[0].0@ != key {
        lemma_lookup_found(m.drop_first(), key);
        let i = choose|i: int|
            0 <= i < m.drop_first().len() && m.drop_first()[i].0@ == key && lookup(
                m.drop_first(),
                key,
            ) == Some(m.drop_first()[i].1@);
        assert(m[i + 1] == m.drop_first()[i]);
    }
}

proof fn lemma_lookup_update(m: Seq<(String, String)>, i: int, e: (String, String), k: Seq<char>)
    requires
        0 <= i < m.len(),
        m[i].0@ != k,
        e.0@ != k,
    ensures
        lookup(m.update(i, e), k) == lookup(m, k),
    decreases i,
{
    if i > 0 {
        assert(m.update(i, e).drop_first() == m.drop_first().update(i - 1, e));
        assert(m.update(i, e)[0] == m[0]);
        lemma_lookup_update(m.drop_first(), i - 1, e, k);
    } else {
        assert(m.update(i, e).drop_first() == m.drop_first());
    }
}

proof fn lemma_lookup_push(m: Seq<(String, String)>, e: (String, String), k: Seq<char>)
    requires
        e.0@ != k,
    ensures
        lookup(m.push(e), k) == lookup(m, k),
    decreases m.len(),
{
    if m.len() > 0 {
        assert(m.push(e).drop_first() == m.drop_first().push(e));
        assert(m.push(e)[0] == m[0]);
        lemma_lookup_push(m.drop_first(), e, k);
    } else {
        assert(m.push(e).drop_first() == m);
    }
}

/// Stores `value` under `key`, replacing what was there (`HashMap::insert`).
pub fn store(m: &mut Vec<(String, String)>, key: String, value: String)
    requires
        keys_unique(old(m)@),
    ensures
        keys_unique(final(m)@),
        lookup(final(m)@, key@) == Some(value@),
        forall|k: Seq<char>| k != key@ ==> lookup(final(m)@, k) == lookup(old(m)@, k),
{
    let ghost m0 = m@;
    let ghost kv = key@;
    match find_key(m, key.as_str()) {
        Some(i) => {
            let ghost e = (key, value);
            m.set(i, (key, value));
            proof {
                assert(m@ == m0.update(i as int, e));
                assert(keys_unique(m@)) by {
                    assert forall|a: int, b: int| 0 <= a < b < m@.len() implies m@[a].0@ != m@[b].0@ by {
                        if a == i {
                            assert(m@[a].0@ == m0[a].0@);
                        }
                        if b == i {
                            assert(m@[b].0@ == m0[b].0@);
                        }
                    }
                }
                lemma_lookup_at(m@, i as int);
                assert forall|k: Seq<char>| k != kv implies lookup(m@, k) == lookup(m0, k) by {
                    lemma_lookup_update(m0, i as int, e, k);
                }
            }
        },
        None => {
            proof {
                assert forall|i: int| 0 <= i < m0.len() implies m0[i].0@ != kv by {
                    if m0[i].0@ == kv {
                        lemma_lookup_at(m0, i);
                    }
                }
            }
            let ghost e = (key, value);
            m.push((key, value));
            proof {
                assert(m@ == m0.push(e));
                assert(keys_unique(m@));
                lemma_lookup_at(m@, m0.len() as int);
                assert forall|k: Seq<char>| k != kv implies lookup(m@, k) == lookup(m0, k) by {
                    lemma_lookup_push(m0, e, k);
                }
            }
        },
    }
}

} // verus!

verus! {

/// The value of the last pair of `fresh` under `k`, if any: what a map
/// holds after the pairs are inserted in order.
pub open spec fn last_value(fresh: Seq<(String, String)>, k: Seq<char>) -> Option<Seq<char>>
    decreases fresh.len(),
{
    if fresh.len() == 0 {
        None
    } else if fresh.last().0@ == k {
        Some(fresh.last().1@)
    } else {
        last_value(fresh.drop_last(), k)
    }
}

/// The stored value after `fresh` is written over `old`, pair by pair: a key
/// of `fresh` reads the value of its last pair, any other key what it had.
pub open spec fn merged(old: Seq<(String, String)>, fresh: Seq<(String, String)>, k: Seq<char>) -> Option<
    Seq<char>,
> {
    match last_value(fresh, k) {
        Some(v) => Some(v),
        None => lookup(old, k),
    }
}

/// Writes every entry of `fresh` into `m` in order (`HashMap::insert`), so
/// that a later pair under a key wins over an earlier one and over what `m`
/// held.
pub fn merge_hashes(m: &mut Vec<(String, String)>, fresh: &Vec<(String, String)>)
    requires
        keys_unique(old(m)@),
    ensures
        keys_unique(final(m)@),
        forall|k: Seq<char>| #[trigger] lookup(final(m)@, k) == merged(old(m)@, fresh@, k),
{
    let ghost m0 = m@;
    let mut i: usize = 0;
    assert(fresh@.take(0) =~= Seq::<(String, String)>::empty());
    while i < fresh.len()
        invariant
            keys_unique(m@),
            i <= fresh@.len(),
            forall|k: Seq<char>| #[trigger] lookup(m@, k) == merged(m0, fresh@.take(i as int), k),
        decreases fresh@.len() - i,
    {
        let ghost before = m@;
        let key = to_string(fresh[i].0.as_str());
        let value = to_string(fresh[i].1.as_str());
        store(m, key, value);
        proof {
            let e = fresh@[i as int];
            assert(fresh@.take(i + 1).drop_last() == fresh@.take(i as int));
            assert(fresh@.take(i + 1).last() == e);
            assert forall|k: Seq<char>| #[trigger] lookup(m@, k) == merged(m0, fresh@.take(i + 1), k) by {
                if k != e.0@ {
                    assert(lookup(m@, k) == lookup(before, k));
                }
            }
        }
        i = i + 1;
    }
    assert(fresh@.take(fresh@.len() as int) == fresh@);
}

/// Records the hash text of thumbnail `image_id` among freshly computed
/// hashes, under its decimal id; a later record for the same id wins.
pub fn record_hash(fresh: &mut Vec<(String, String)>, image_id: u64, hash_b64: String)
    requires
        keys_unique(old(fresh)@),
    ensures
        keys_unique(final(fresh)@),
        lookup(final(fresh)@, decimal(image_id as nat)) == Some(hash_b64@),
        forall|k: Seq<char>| k != decimal(image_id as nat) ==> lookup(final(fresh)@, k) == lookup(old(fresh)@, k),
{
    let key = decimal_string(image_id);
    store(fresh, key, hash_b64);
}

} // verus!

verus! {

/// The bytes of the perceptual hash that `text` encodes, if it is one.
pub uninterp spec fn decoded_hash(text: Seq<char>) -> Option<Seq<u8>>;

/// Calls `image_hasher::ImageHash::from_base64` (base64 without padding,
/// then `from_bytes`) and hands back the hash's bytes. Trusted: the outcome
/// is `decoded_hash(text)`, and a decoded hash is never empty, since
/// `from_bytes` refuses an empty slice.
#[verifier::external_body]
fn decode_hash(text: &str) -> (res: Option<Vec<u8>>)
    ensures
        match res {
            Some(b) => decoded_hash(text@) == Some(b@) && b@.len() > 0,
            None => decoded_hash(text@) is None,
        },
{
    match image_hasher::ImageHash::<Box<[u8]>>::from_base64(text) {
        Ok(h) => Some(h.as_bytes().to_vec()),
        Err(_) => None,
    }
}

/// A cached thumbnail: its image id and where it is stored.
#[derive(Debug)]
pub struct ThumbEntry {
    pub image_id: u64,
    pub path: String,
}

/// The hash stored for a thumbnail's image id, decoded.
pub open spec fn stored_hash(hashes: Seq<(String, String)>, id: u64) -> Option<Seq<u8>> {
    match lookup(hashes, decimal(id as nat)) {
        Some(b) => decoded_hash(b),
        None => None,
    }
}

/// The thumbnails among the first `n` entries whose stored hash decodes, in
/// order, as (image id, path, hash bytes).
pub open spec fn hashed_thumbs(entries: Seq<ThumbEntry>, hashes: Seq<(String, String)>, n: nat) -> Seq<
    (u64, Seq<char>, Seq<u8>),
>
    decreases n,
{
    if n == 0 {
        Seq::empty()
    } else {
        let rest = hashed_thumbs(entries, hashes, (n - 1) as nat);
        let e = entries[n - 1];
        match stored_hash(hashes, e.image_id) {
            Some(h) => rest.push((e.image_id, e.path@, h)),
            None => rest,
        }
    }
}

/// The view of a hashed thumbnail.
pub open spec fn thumb_view(t: ThumbHash) -> (u64, Seq<char>, Seq<u8>) {
    (t.image_id, t.path@, t.hash@)
}

/// The cached thumbnails that have a usable hash, ready to match.
pub fn thumb_hashes(entries: &Vec<ThumbEntry>, hashes: &Vec<(String, String)>) -> (res: Vec<ThumbHash>)
    ensures
        res@.map_values(|t: ThumbHash| thumb_view(t)) == hashed_thumbs(entries@, hashes@, entries@.len()),
{
    let mut out: Vec<ThumbHash> = Vec::new();
    for i in 0..entries.len()
        invariant
            out@.map_values(|t: ThumbHash| thumb_view(t)) == hashed_thumbs(entries@, hashes@, i as nat),
    {
        let e = &entries[i];
        let key = decimal_string(e.image_id);
        match lookup_str(hashes, key.as_str()) {
            Some(b64) => match decode_hash(b64.as_str()) {
                Some(h) => {
                    let t = ThumbHash { image_id: e.image_id, path: to_string(e.path.as_str()), hash: h };
                    out.push(t);
                    assert(out@.map_values(|t: ThumbHash| thumb_view(t)) == hashed_thumbs(
                        entries@,
                        hashes@,
                        i as nat,
                    ).push(thumb_view(t)));
                },
                None => {},
            },
            None => {},
        }
    }
    out
}

/// What the folder-hash cache remembers of one file.
#[derive(Debug)]
pub struct FolderHashEntry {
    pub mtime_secs: u64,
    pub size: u64,
    pub hash_b64: String,
    pub preview_filename: String,
}

/// The cache entry for the file at `key`, if any.
pub open spec fn entry_for(cache: Seq<(String, FolderHashEntry)>, key: Seq<char>) -> Option<FolderHashEntry>
    decreases cache.len(),
{
    if cache.len() == 0 {
        None
    } else if cache[0].0@ == key {
        Some(cache[0].1)
    } else {
        entry_for(cache.drop_first(), key)
    }
}

fn find_entry<'a>(cache: &'a Vec<(String, FolderHashEntry)>, key: &str) -> (res: Option<&'a FolderHashEntry>)
    ensures
        match entry_for(cache@, key@) {
            Some(e) => res == Some(&e),
            None => res is None,
        },
{
    let mut i: usize = 0;
    assert(cache@.skip(0) == cache@);
    while i < cache.len()
        invariant
            i <= cache@.len(),
            entry_for(cache@, key@) == entry_for(cache@.skip(i as int), key@),
        decreases cache@.len() - i,
    {
        assert(cache@.skip(i as int).drop_first() == cache@.skip(i + 1));
        if str_eq(cache[i].0.as_str(), key) {
            return Some(&cache[i].1);
        }
        i = i + 1;
    }
    None
}

/// Where the cached preview of the file at `path` is, if the cache knows it.
pub open spec fn cached_preview(cache: Seq<(String, FolderHashEntry)>, dir: Seq<char>, path: Seq<char>) -> Option<
    Seq<char>,
> {
    match entry_for(cache, path) {
        Some(e) => Some(join(dir, e.preview_filename@)),
        None => None,
    }
}

/// The preview path the cache names for each file, if any; the caller
/// checks which of them exist.
pub fn cached_previews(files: &Vec<String>, cache: &Vec<(String, FolderHashEntry)>, dir: &str) -> (res: Vec<Option<String>>)
    ensures
        res@.len() == files@.len(),
        forall|i: int|
            0 <= i < files@.len() ==> opt_string(#[trigger] res@[i]) == cached_preview(
                cache@,
                dir@,
                files@[i]@,
            ),
{
    let mut out: Vec<Option<String>> = Vec::new();
    for i in 0..files.len()
        invariant
            out@.len() == i,
            forall|j: int|
                0 <= j < i ==> opt_string(#[trigger] out@[j]) == cached_preview(cache@, dir@, files@[j]@),
    {
        let p = match find_entry(cache, files[i].as_str()) {
            Some(e) => Some(join_path(dir, e.preview_filename.as_str())),
            None => None,
        };
        out.push(p);
    }
    out
}

/// The view of an optional string.
pub open spec fn opt_string(o: Option<String>) -> Option<Seq<char>> {
    match o {
        Some(s) => Some(s@),
        None => None,
    }
}

/// File `i` has a usable cache entry: known, with an existing preview and a
/// hash that decodes.
pub open spec fn folder_hash_of(
    cache: Seq<(String, FolderHashEntry)>,
    path: Seq<char>,
    preview_exists: bool,
) -> Option<Seq<u8>> {
    match entry_for(cache, path) {
        Some(e) => if preview_exists {
            decoded_hash(e.hash_b64@)
        } else {
            None
        },
        None => None,
    }
}

/// The first `n` files with usable entries, in order, as (path, preview,
/// hash), and how many lack one.
pub open spec fn folder_scan(
    files: Seq<String>,
    cache: Seq<(String, FolderHashEntry)>,
    dir: Seq<char>,
    exists: Seq<bool>,
    n: nat,
) -> (Seq<(Seq<char>, Seq<char>, Seq<u8>)>, nat)
    decreases n,
{
    if n == 0 {
        (Seq::empty(), 0)
    } else {
        let (found, missing) = folder_scan(files, cache, dir, exists, (n - 1) as nat);
        let p = files[n - 1]@;
        match folder_hash_of(cache, p, exists[n - 1]) {
            Some(h) => (found.push((p, join(dir, entry_for(cache, p)->Some_0.preview_filename@), h)), missing),
            None => (found, missing + 1),
        }
    }
}

/// The message that asks for the folder to be hashed first.
pub open spec fn unhashed_message(n: nat) -> Seq<char> {
    decimal(n) + (if n == 1 {
        " folder file has"@
    } else {
        " folder files have"@
    }) + " not been hashed yet. Re-run \"Hash folder\"."@
}

/// The view of a hashed file.
pub open spec fn file_view(f: FileHash) -> (Seq<char>, Seq<char>, Seq<u8>) {
    (f.path@, f.preview_path@, f.hash@)
}

/// The folder's files with their cached hashes, or, if any file lacks a
/// usable entry, the message that says how many do. `preview_exists[i]`
/// tells whether the preview that `cached_previews` named for file `i` is
/// on disk.
pub fn collect_folder_hashes(
    files: &Vec<String>,
    cache: &Vec<(String, FolderHashEntry)>,
    dir: &str,
    preview_exists: &Vec<bool>,
) -> (res: Result<Vec<FileHash>, String>)
    requires
        preview_exists@.len() == files@.len(),
    ensures
        ({
            let (found, missing) = folder_scan(files@, cache@, dir@, preview_exists@, files@.len());
            match res {
                Ok(v) => missing == 0 && v@.map_values(|f: FileHash| file_view(f)) == found,
                Err(e) => missing > 0 && e@ == unhashed_message(missing),
            }
        }),
{
    let mut out: Vec<FileHash> = Vec::new();
    let mut missing: u64 = 0;
    for i in 0..files.len()
        invariant
            preview_exists@.len() == files@.len(),
            missing <= i,
            ({
                let (found, m) = folder_scan(files@, cache@, dir@, preview_exists@, i as nat);
                out@.map_values(|f: FileHash| file_view(f)) == found && missing == m
            }),
    {
        match find_entry(cache, files[i].as_str()) {
            None => {
                missing = missing + 1;
            },
            Some(e) => {
                if !preview_exists[i] {
                    missing = missing + 1;
                } else {
                    match decode_hash(e.hash_b64.as_str()) {
                        None => {
                            missing = missing + 1;
                        },
                        Some(h) => {
                            let f = FileHash {
                                path: to_string(files[i].as_str()),
                                preview_path: join_path(dir, e.preview_filename.as_str()),
                                hash: h,
                            };
                            let ghost (found, m) = folder_scan(
                                files@,
                                cache@,
                                dir@,
                                preview_exists@,
                                i as nat,
                            );
                            out.push(f);
                            assert(out@.map_values(|f: FileHash| file_view(f)) == found.push(
                                file_view(f),
                            ));
                        },
                    }
                }
            },
        }
    }
    if missing > 0 {
        let mut m = decimal_string(missing);
        if missing == 1 {
            push_str(&mut m, " folder file has");
        } else {
            push_str(&mut m, " folder files have");
        }
        push_str(&mut m, " not been hashed yet. Re-run \"Hash folder\".");
        Err(m)
    } else {
        Ok(out)
    }
}

} // verus!

verus! {

/// The extensions hashed for matching.
pub open spec fn is_hash_ext(e: Seq<char>) -> bool {
    ||| e == "jpg"@
    ||| e == "jpeg"@
    ||| e == "png"@
    ||| e == "webp"@
    ||| e == "gif"@
    ||| e == "bmp"@
    ||| e == "tif"@
    ||| e == "tiff"@
}

/// A file of the replacement folder is an image to hash: its extension,
/// lower-cased, is one of those above.
pub open spec fn is_hash_path(path: Seq<char>) -> bool {
    match lower_extension(path) {
        Some(e) => is_hash_ext(e),
        None => false,
    }
}

/// The images hashed for matching are exactly the files whose extension,
/// in any ASCII case, is `jpg`, `jpeg`, `png`, `webp`, `gif`, `bmp`, `tif` or
/// `tiff`; a file without an extension is not one.
pub proof fn lemma_hash_image_extensions(path: Seq<char>, e: Seq<char>)
    ensures
        path_extension(path) is None ==> !is_hash_path(path),
        path_extension(path) == Some(e) && is_ascii_text(e) ==> (is_hash_path(path) <==> {
            let x = ascii_lowered(e);
            x == "jpg"@ || x == "jpeg"@ || x == "png"@ || x == "webp"@ || x == "gif"@ || x == "bmp"@
                || x == "tif"@ || x == "tiff"@
        }),
{
}

/// Whether a file of the replacement folder is an image to hash.
pub fn is_hash_image(path: &str) -> (res: bool)
    ensures
        res == is_hash_path(path@),
{
    match lower_extension_of(path) {
        Some(e) => {
            let e = e.as_str();
            str_eq(e, "jpg") || str_eq(e, "jpeg") || str_eq(e, "png") || str_eq(e, "webp")
                || str_eq(e, "gif") || str_eq(e, "bmp") || str_eq(e, "tif") || str_eq(e, "tiff")
        },
        None => false,
    }
}

/// Whether a cached entry can stand for the file as it is now: same size and
/// modification time, its preview still there, and its hash decodable.
pub open spec fn is_cache_hit(e: FolderHashEntry, size: u64, mtime: u64, preview_exists: bool) -> bool {
    e.size == size && e.mtime_secs == mtime && preview_exists && decoded_hash(e.hash_b64@) is Some
}

/// Whether the file's cached entry, if any, can be reused instead of hashing
/// the file again. `preview_exists` tells whether the entry's preview is on
/// disk.
pub fn cache_hit(entry: Option<&FolderHashEntry>, size: u64, mtime: u64, preview_exists: bool) -> (res: bool)
    ensures
        res == match entry {
            Some(e) => is_cache_hit(*e, size, mtime, preview_exists),
            None => false,
        },
{
    match entry {
        Some(e) => {
            if e.size == size && e.mtime_secs == mtime && preview_exists {
                decode_hash(e.hash_b64.as_str()).is_some()
            } else {
                false
            }
        },
        None => false,
    }
}

/// The cache entry for the file at `path`, if any.
pub fn cache_entry<'a>(cache: &'a Vec<(String, FolderHashEntry)>, path: &str) -> (res: Option<&'a FolderHashEntry>)
    ensures
        match entry_for(cache@, path@) {
            Some(e) => res == Some(&e),
            None => res is None,
        },
{
    find_entry(cache, path)
}

/// The entry to remember for a freshly hashed file, or nothing when its
/// preview path has no file name to record.
pub fn new_cache_entry(mtime: u64, size: u64, hash_b64: String, preview_path: &str) -> (res: Option<FolderHashEntry>)
    ensures
        match crate::paths::file_name(preview_path@) {
            Some(n) => res matches Some(e) && e.mtime_secs == mtime && e.size == size
                && e.hash_b64@ == hash_b64@ && e.preview_filename@ == n,
            None => res is None,
        },
{
    match crate::paths::file_name_of(preview_path) {
        Some(n) => Some(FolderHashEntry { mtime_secs: mtime, size, hash_b64, preview_filename: n }),
        None => None,
    }
}

/// How many files of a folder hash were served from the cache: those that
/// were neither hashed anew nor failed, counted without going below zero.
pub fn cached_count(total: u32, hashed: u32, failed: u32) -> (res: u32)
    ensures
        res == (if total <= hashed {
            0
        } else if total - hashed <= failed {
            0
        } else {
            total - hashed - failed
        }),
{
    total.saturating_sub(hashed).saturating_sub(failed)
}

/// The entry of the last pair of `fresh` under `k`, if any.
pub open spec fn last_entry(fresh: Seq<(String, FolderHashEntry)>, k: Seq<char>) -> Option<FolderHashEntry>
    decreases fresh.len(),
{
    if fresh.len() == 0 {
        None
    } else if fresh.last().0@ == k {
        Some(fresh.last().1)
    } else {
        last_entry(fresh.drop_last(), k)
    }
}

/// Every file occurs once in the folder-hash cache.
pub open spec fn entry_keys_unique(m: Seq<(String, FolderHashEntry)>) -> bool {
    forall|a: int, b: int| 0 <= a < b < m.len() ==> m[a].0@ != m[b].0@
}

proof fn lemma_entry_at_first(m: Seq<(String, FolderHashEntry)>, j: int)
    requires
        0 <= j < m.len(),
        forall|i: int| 0 <= i < j ==> m[i].0@ != m[j].0@,
    ensures
        entry_for(m, m[j].0@) == Some(m[j].1),
    decreases j,
{
    if j > 0 {
        lemma_entry_at_first(m.drop_first(), j - 1);
    }
}

proof fn lemma_entry_absent(m: Seq<(String, FolderHashEntry)>, k: Seq<char>)
    requires
        forall|i: int| 0 <= i < m.len() ==> m[i].0@ != k,
    ensures
        entry_for(m, k) is None,
    decreases m.len(),
{
    if m.len() > 0 {
        lemma_entry_absent(m.drop_first(), k);
    }
}

proof fn lemma_entry_update(m: Seq<(String, FolderHashEntry)>, j: int, e: (String, FolderHashEntry), k: Seq<char>)
    requires
        0 <= j < m.len(),
        e.0@ == m[j].0@,
        forall|i: int| 0 <= i < j ==> m[i].0@ != m[j].0@,
    ensures
        entry_for(m.update(j, e), k) == (if k == e.0@ {
            Some(e.1)
        } else {
            entry_for(m, k)
        }),
    decreases j,
{
    if j > 0 {
        assert(m.update(j, e).drop_first() == m.drop_first().update(j - 1, e));
        assert(m.update(j, e)[0] == m[0]);
        lemma_entry_update(m.drop_first(), j - 1, e, k);
    } else {
        assert(m.update(j, e).drop_first() == m.drop_first());
    }
}

proof fn lemma_entry_push(m: Seq<(String, FolderHashEntry)>, e: (String, FolderHashEntry), k: Seq<char>)
    requires
        forall|i: int| 0 <= i < m.len() ==> m[i].0@ != e.0@,
    ensures
        entry_for(m.push(e), k) == (if k == e.0@ {
            Some(e.1)
        } else {
            entry_for(m, k)
        }),
    decreases m.len(),
{
    if m.len() > 0 {
        assert(m.push(e).drop_first() == m.drop_first().push(e));
        assert(m.push(e)[0] == m[0]);
        lemma_entry_push(m.drop_first(), e, k);
    } else {
        assert(m.push(e).drop_first() == m);
    }
}

/// The position of the first entry for `key`, if any.
fn first_entry_index(m: &Vec<(String, FolderHashEntry)>, key: &str) -> (res: Option<usize>)
    ensures
        match res {
            Some(j) => j < m@.len() && m@[j as int].0@ == key@ && forall|i: int|
                0 <= i < j ==> (#[trigger] m@[i]).0@ != key@,
            None => forall|i: int| 0 <= i < m@.len() ==> (#[trigger] m@[i]).0@ != key@,
        },
{
    let mut i: usize = 0;
    while i < m.len()
        invariant
            i <= m@.len(),
            forall|a: int| 0 <= a < i ==> (#[trigger] m@[a]).0@ != key@,
        decreases m@.len() - i,
    {
        if str_eq(m[i].0.as_str(), key) {
            return Some(i);
        }
        i = i + 1;
    }
    None
}

/// Writes the freshly computed entries into the folder-hash cache in order
/// (`HashMap::insert`): a file of `fresh` reads the entry of its last pair,
/// any other file what it had; a cache in which each file occurs once stays so.
pub fn merge_folder_hashes(cache: &mut Vec<(String, FolderHashEntry)>, fresh: Vec<(String, FolderHashEntry)>)
    ensures
        forall|k: Seq<char>| #[trigger] entry_for(final(cache)@, k) == match last_entry(fresh@, k) {
            Some(e) => Some(e),
            None => entry_for(old(cache)@, k),
        },
        entry_keys_unique(old(cache)@) ==> entry_keys_unique(final(cache)@),
{
    let ghost c0 = cache@;
    let ghost f0 = fresh@;
    let total = fresh.len();
    let mut rest = fresh;
    let mut i: usize = 0;
    assert(f0.take(0) =~= Seq::<(String, FolderHashEntry)>::empty());
    assert(f0.skip(0) == f0);
    while rest.len() > 0
        invariant
            i <= f0.len(),
            f0.len() == total,
            rest@ == f0.skip(i as int),
            forall|k: Seq<char>| #[trigger] entry_for(cache@, k) == match last_entry(f0.take(i as int), k) {
                Some(e) => Some(e),
                None => entry_for(c0, k),
            },
            entry_keys_unique(c0) ==> entry_keys_unique(cache@),
        decreases rest@.len(),
    {
        let ghost before = cache@;
        assert(rest@.len() == f0.len() - i);
        let e = rest.remove(0);
        proof {
            assert(f0.skip(i as int)[0] == f0[i as int]);
            assert(f0.skip(i as int).drop_first() == f0.skip(i + 1));
        }
        let ghost ek = e.0@;
        let ghost ev = e;
        match first_entry_index(cache, e.0.as_str()) {
            Some(j) => {
                cache.set(j, e);
                proof {
                    assert(cache@ == before.update(j as int, ev));
                    assert forall|k: Seq<char>| #[trigger] entry_for(cache@, k) == (if k == ek {
                        Some(ev.1)
                    } else {
                        entry_for(before, k)
                    }) by {
                        lemma_entry_update(before, j as int, ev, k);
                    }
                    if entry_keys_unique(c0) {
                        assert forall|a: int, b: int| 0 <= a < b < cache@.len() implies cache@[a].0@
                            != cache@[b].0@ by {
                            if a == j {
                                assert(cache@[a].0@ == before[a].0@);
                            }
                            if b == j {
                                assert(cache@[b].0@ == before[b].0@);
                            }
                        }
                    }
                }
            },
            None => {
                cache.push(e);
                proof {
                    assert(cache@ == before.push(ev));
                    assert forall|k: Seq<char>| #[trigger] entry_for(cache@, k) == (if k == ek {
                        Some(ev.1)
                    } else {
                        entry_for(before, k)
                    }) by {
                        lemma_entry_push(before, ev, k);
                    }
                }
            },
        }
        proof {
            assert(f0.take(i + 1).drop_last() == f0.take(i as int));
            assert(f0.take(i + 1).last() == ev);
        }
        i = i + 1;
    }
    assert(i == f0.len());
    assert(f0.take(f0.len() as int) == f0);
}

} // verus!
