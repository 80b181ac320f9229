//! Pre-flight of an import folder: which files pair up by stem, whether the
//! numbering is contiguous, and which pairs are ready, already committed or
//! blocked. The directory listing, the license list and the file contents
//! are read by the caller and handed in.
use vstd::prelude::*;

use crate::json::{get_member, json_parse, member, parse_json, JsonValue};
use crate::sidecar::{views, opt_view, parse_sidecar, sidecar_from_text, Sidecar, SidecarView};
use crate::text::{
    ascii_lowered, cat2, cat3, chars_of, decimal, is_ascii_text, is_digit, is_six_digits, lemma_seq_lt_irreflexive,
    lemma_seq_lt_total, lemma_seq_lt_transitive, lowercase, padded_decimal, push_str, seq_lt,
    str_eq, str_lt, string_of_range, to_lowercase, to_string, zero_pad,
};

verus! {

/// One directory entry: a regular file with a UTF-8 name, or an entry that
/// could not be read (with the reason).
#[derive(Debug)]
pub enum FolderEntry {
    Unreadable(String),
    File { name: String, path: String },
}

#[derive(Debug)]
pub struct PreflightError {
    /// File or stem the error relates to (e.g. "000003.json"), or "folder"
    /// for whole-folder issues.
    pub source: String,
    pub message: String,
}

impl View for PreflightError {
    type V = (Seq<char>, Seq<char>);

    open spec fn view(&self) -> (Seq<char>, Seq<char>) {
        (self.source@, self.message@)
    }
}

/// The files found for one stem.
#[derive(Debug)]
pub struct StemFiles {
    pub stem: String,
    /// Path of `NNNNNN.json`.
    pub sidecar: Option<String>,
    /// Path of `NNNNNN.json.done`.
    pub done: Option<String>,
    /// Name and path of the image.
    pub image: Option<(String, String)>,
    /// Names of further images with the same stem.
    pub strays: Vec<String>,
}

pub struct StemFilesView {
    pub stem: Seq<char>,
    pub sidecar: Option<Seq<char>>,
    pub done: Option<Seq<char>>,
    pub image: Option<(Seq<char>, Seq<char>)>,
    pub strays: Seq<Seq<char>>,
}

impl View for StemFiles {
    type V = StemFilesView;

    open spec fn view(&self) -> StemFilesView {
        StemFilesView {
            stem: self.stem@,
            sidecar: opt_view(self.sidecar),
            done: opt_view(self.done),
            image: match self.image {
                Some((n, p)) => Some((n@, p@)),
                None => None,
            },
            strays: self.strays@.map_values(|s: String| s@),
        }
    }
}

/// What a file name is to the pre-flight.
pub enum NameKind {
    Done(Seq<char>),
    Sidecar(Seq<char>),
    Image(Seq<char>),
    Rejected(Seq<char>),
}

pub open spec fn ends_with(s: Seq<char>, suffix: Seq<char>) -> bool {
    s.len() >= suffix.len() && s.subrange(s.len() - suffix.len(), s.len() as int) == suffix
}

pub open spec fn six_digits(s: Seq<char>) -> bool {
    s.len() == 6 && forall|i: int| 0 <= i < 6 ==> is_digit(#[trigger] s[i])
}

/// Whether `s` holds a `'.'`.
pub open spec fn has_dot(s: Seq<char>) -> bool {
    exists|i: int| 0 <= i < s.len() && s[i] == '.'
}

/// The index of the last `'.'` (`rfind('.')`).
pub open spec fn last_dot(s: Seq<char>) -> int {
    choose|i: int| 0 <= i < s.len() && s[i] == '.' && forall|j: int| i < j < s.len() ==> s[j] != '.'
}

/// The extensions an import image may have (lower case).
pub open spec fn is_import_ext(e: Seq<char>) -> bool {
    ||| e == "jpg"@
    ||| e == "jpeg"@
    ||| e == "tif"@
    ||| e == "tiff"@
    ||| e == "png"@
    ||| e == "webp"@
}

pub open spec fn stem_error() -> Seq<char> {
    "stem must be six digits"@
}

/// Sidecar `NNNNNN.json`, done sidecar `NNNNNN.json.done`, image
/// `NNNNNN.{ext}`; anything else is rejected with a reason.
#[verifier::opaque]
pub open spec fn classify(name: Seq<char>) -> NameKind {
    if ends_with(name, ".json.done"@) {
        let stem = name.subrange(0, name.len() - 10);
        if six_digits(stem) {
            NameKind::Done(stem)
        } else {
            NameKind::Rejected(stem_error())
        }
    } else if ends_with(name, ".json"@) {
        let stem = name.subrange(0, name.len() - 5);
        if six_digits(stem) {
            NameKind::Sidecar(stem)
        } else {
            NameKind::Rejected(stem_error())
        }
    } else if has_dot(name) {
        let dot = last_dot(name);
        let stem = name.subrange(0, dot);
        let ext = lowercase(name.subrange(dot + 1, name.len() as int));
        if !is_import_ext(ext) {
            NameKind::Rejected(
                "unrecognized file extension `."@ + ext
                    + "` (allowed: jpg, jpeg, tif, tiff, png, webp)"@,
            )
        } else if !six_digits(stem) {
            NameKind::Rejected(stem_error())
        } else {
            NameKind::Image(stem)
        }
    } else {
        NameKind::Rejected("file has no extension"@)
    }
}

/// The error an entry raises while the folder is read, if any.
pub open spec fn entry_error(e: FolderEntry) -> Option<(Seq<char>, Seq<char>)> {
    match e {
        FolderEntry::Unreadable(msg) => Some(("folder"@, "directory entry error: "@ + msg@)),
        FolderEntry::File { name, path } => match classify(name@) {
            NameKind::Rejected(m) => Some((name@, m)),
            _ => None,
        },
    }
}

/// The errors raised while reading `es`, in order.
pub open spec fn entry_errors(es: Seq<FolderEntry>) -> Seq<(Seq<char>, Seq<char>)>
    decreases es.len(),
{
    if es.len() == 0 {
        Seq::empty()
    } else {
        match entry_error(es.last()) {
            Some(err) => entry_errors(es.drop_last()).push(err),
            None => entry_errors(es.drop_last()),
        }
    }
}

/// The stem an entry belongs to, if it is one of a pair's files.
pub open spec fn entry_stem(e: FolderEntry) -> Option<Seq<char>> {
    match e {
        FolderEntry::Unreadable(_) => None,
        FolderEntry::File { name, path } => match classify(name@) {
            NameKind::Done(s) => Some(s),
            NameKind::Sidecar(s) => Some(s),
            NameKind::Image(s) => Some(s),
            NameKind::Rejected(_) => None,
        },
    }
}

/// No files yet for stem `k`.
pub open spec fn no_files(k: Seq<char>) -> StemFilesView {
    StemFilesView { stem: k, sidecar: None, done: None, image: None, strays: Seq::empty() }
}

/// How one entry changes the files of stem `f.stem`: a later sidecar or done
/// file replaces an earlier one; the first image is the image, later ones
/// are strays.
pub open spec fn files_step(f: StemFilesView, e: FolderEntry) -> StemFilesView {
    match e {
        FolderEntry::Unreadable(_) => f,
        FolderEntry::File { name, path } => match classify(name@) {
            NameKind::Done(s) => if s == f.stem {
                StemFilesView { done: Some(path@), ..f }
            } else {
                f
            },
            NameKind::Sidecar(s) => if s == f.stem {
                StemFilesView { sidecar: Some(path@), ..f }
            } else {
                f
            },
            NameKind::Image(s) => if s == f.stem {
                if f.image is Some {
                    StemFilesView { strays: f.strays.push(name@), ..f }
                } else {
                    StemFilesView { image: Some((name@, path@)), ..f }
                }
            } else {
                f
            },
            NameKind::Rejected(_) => f,
        },
    }
}

/// The files of stem `k` among `es`.
pub open spec fn files_for(es: Seq<FolderEntry>, k: Seq<char>) -> StemFilesView
    decreases es.len(),
{
    if es.len() == 0 {
        no_files(k)
    } else {
        files_step(files_for(es.drop_last(), k), es.last())
    }
}

/// Whether some entry of `es` belongs to stem `k`.
pub open spec fn has_stem(es: Seq<FolderEntry>, k: Seq<char>) -> bool {
    exists|i: int| 0 <= i < es.len() && entry_stem(#[trigger] es[i]) == Some(k)
}

/// The table of stems: strictly ascending, exactly the stems of `es`, each
/// with its files.
pub open spec fn is_stem_table(t: Seq<StemFilesView>, es: Seq<FolderEntry>) -> bool {
    &&& forall|i: int, j: int| 0 <= i < j < t.len() ==> seq_lt(t[i].stem, t[j].stem)
    &&& forall|i: int| 0 <= i < t.len() ==> #[trigger] t[i] == files_for(es, t[i].stem)
    &&& forall|k: Seq<char>|
        has_stem(es, k) <==> exists|i: int| 0 <= i < t.len() && (#[trigger] t[i]).stem == k
}

pub open spec fn table_view(t: Seq<StemFiles>) -> Seq<StemFilesView> {
    t.map_values(|f: StemFiles| f@)
}

} // verus!

verus! {

/// Exec form of [`NameKind`].
#[derive(Debug)]
pub enum NameClass {
    Done(String),
    Sidecar(String),
    Image(String),
    Rejected(String),
}

impl View for NameClass {
    type V = NameKind;

    open spec fn view(&self) -> NameKind {
        match self {
            NameClass::Done(s) => NameKind::Done(s@),
            NameClass::Sidecar(s) => NameKind::Sidecar(s@),
            NameClass::Image(s) => NameKind::Image(s@),
            NameClass::Rejected(s) => NameKind::Rejected(s@),
        }
    }
}

fn ends_with_str(cs: &Vec<char>, suffix: &str) -> (res: bool)
    ensures
        res == ends_with(cs@, suffix@),
{
    let sf = chars_of(suffix);
    if sf.len() > cs.len() {
        return false;
    }
    let off = cs.len() - sf.len();
    let mut i: usize = 0;
    while i < sf.len()
        invariant
            sf@ == suffix@,
            sf@.len() <= cs@.len(),
            off + sf@.len() == cs@.len(),
            cs@.len() == cs.len(),
            i <= sf@.len(),
            forall|j: int| 0 <= j < i ==> cs@[off + j] == sf@[j],
        decreases sf@.len() - i,
    {
        if cs[off + i] != sf[i] {
            assert(cs@.subrange(off as int, cs@.len() as int)[i as int] != suffix@[i as int]);
            return false;
        }
        i = i + 1;
    }
    assert(cs@.subrange(off as int, cs@.len() as int) =~= suffix@);
    true
}

/// Whether a lower-cased extension is one an import image may have.
pub fn import_ext(e: &str) -> (res: bool)
    ensures
        res == is_import_ext(e@),
{
    str_eq(e, "jpg") || str_eq(e, "jpeg") || str_eq(e, "tif") || str_eq(e, "tiff") || str_eq(
        e,
        "png",
    ) || str_eq(e, "webp")
}

/// Sorts a file name into done sidecar, sidecar, image or rejected.
pub fn classify_name(name: &str) -> (res: NameClass)
    ensures
        res@ == classify(name@),
{
    let cs = chars_of(name);
    let n = cs.len();
    proof {
        reveal(classify);
        reveal_strlit(".json.done");
        reveal_strlit(".json");
    }
    if ends_with_str(&cs, ".json.done") {
        let stem = string_of_range(&cs, 0, n - 10);
        if is_six_digits(stem.as_str()) {
            NameClass::Done(stem)
        } else {
            NameClass::Rejected(to_string("stem must be six digits"))
        }
    } else if ends_with_str(&cs, ".json") {
        let stem = string_of_range(&cs, 0, n - 5);
        if is_six_digits(stem.as_str()) {
            NameClass::Sidecar(stem)
        } else {
            NameClass::Rejected(to_string("stem must be six digits"))
        }
    } else {
        let mut d = n;
        while d > 0 && cs[d - 1] != '.'
            invariant
                cs@ == name@,
                n == cs@.len(),
                d <= n,
                forall|j: int| d <= j < n ==> cs@[j] != '.',
            decreases d,
        {
            d = d - 1;
        }
        if d == 0 {
            assert(!has_dot(name@));
            return NameClass::Rejected(to_string("file has no extension"));
        }
        let dot = d - 1;
        proof {
            assert(has_dot(name@));
            let c = last_dot(name@);
            if c < dot as int {
                assert(name@[dot as int] == '.');
            }
            if c > dot as int {
                assert(cs@[c] != '.');
            }
            assert(c == dot as int);
        }
        let stem = string_of_range(&cs, 0, dot);
        let ext = string_of_range(&cs, dot + 1, n);
        let lower = to_lowercase(ext.as_str());
        if !import_ext(lower.as_str()) {
            let mut msg = cat2("unrecognized file extension `.", lower.as_str());
            push_str(&mut msg, "` (allowed: jpg, jpeg, tif, tiff, png, webp)");
            NameClass::Rejected(msg)
        } else if !is_six_digits(stem.as_str()) {
            NameClass::Rejected(to_string("stem must be six digits"))
        } else {
            NameClass::Image(stem)
        }
    }
}

} // verus!

verus! {

fn clone_opt(o: &Option<String>) -> (res: Option<String>)
    ensures
        opt_view(res) == opt_view(*o),
{
    match o {
        Some(s) => Some(s.clone()),
        None => None,
    }
}

fn clone_strings(v: &Vec<String>) -> (res: Vec<String>)
    ensures
        res@.map_values(|s: String| s@) == v@.map_values(|s: String| s@),
{
    let mut out: Vec<String> = Vec::new();
    let mut i: usize = 0;
    while i < v.len()
        invariant
            i <= v@.len(),
            out@.len() == i,
            forall|j: int| 0 <= j < i ==> #[trigger] out@[j]@ == v@[j]@,
        decreases v@.len() - i,
    {
        out.push(v[i].clone());
        i = i + 1;
    }
    assert(out@.map_values(|s: String| s@) =~= v@.map_values(|s: String| s@));
    out
}

/// The files of `f`'s stem once entry `name`/`path` (of kind `kind`) is seen.
fn apply_entry(f: &StemFiles, kind: &NameClass, name: &String, path: &String) -> (res: StemFiles)
    requires
        kind@ == classify(name@),
    ensures
        res@ == files_step(f@, FolderEntry::File { name: *name, path: *path }),
{
    let stem = f.stem.clone();
    let sidecar = clone_opt(&f.sidecar);
    let done = clone_opt(&f.done);
    let image = match &f.image {
        Some((n, p)) => Some((n.clone(), p.clone())),
        None => None,
    };
    let strays = clone_strings(&f.strays);
    let same = match kind {
        NameClass::Done(s) => str_eq(s.as_str(), f.stem.as_str()),
        NameClass::Sidecar(s) => str_eq(s.as_str(), f.stem.as_str()),
        NameClass::Image(s) => str_eq(s.as_str(), f.stem.as_str()),
        NameClass::Rejected(_) => false,
    };
    if !same {
        return StemFiles { stem, sidecar, done, image, strays };
    }
    match kind {
        NameClass::Done(_) => StemFiles { stem, sidecar, done: Some(path.clone()), image, strays },
        NameClass::Sidecar(_) => StemFiles {
            stem,
            sidecar: Some(path.clone()),
            done,
            image,
            strays,
        },
        NameClass::Image(_) => {
            if image.is_some() {
                let mut strays = strays;
                strays.push(name.clone());
                proof {
                    assert(strays@.map_values(|s: String| s@) =~= f.strays@.map_values(
                        |s: String| s@,
                    ).push(name@));
                }
                StemFiles { stem, sidecar, done, image, strays }
            } else {
                StemFiles {
                    stem,
                    sidecar,
                    done,
                    image: Some((name.clone(), path.clone())),
                    strays,
                }
            }
        },
        NameClass::Rejected(_) => StemFiles { stem, sidecar, done, image, strays },
    }
}

proof fn lemma_step_other(f: StemFilesView, e: FolderEntry)
    requires
        entry_stem(e) != Some(f.stem),
    ensures
        files_step(f, e) == f,
{
}

proof fn lemma_step_keeps_stem(f: StemFilesView, e: FolderEntry)
    ensures
        files_step(f, e).stem == f.stem,
{
}

proof fn lemma_files_for_stem(es: Seq<FolderEntry>, k: Seq<char>)
    ensures
        files_for(es, k).stem == k,
    decreases es.len(),
{
    if es.len() > 0 {
        lemma_files_for_stem(es.drop_last(), k);
    }
}

proof fn lemma_no_stem_no_files(es: Seq<FolderEntry>, k: Seq<char>)
    requires
        !has_stem(es, k),
    ensures
        files_for(es, k) == no_files(k),
    decreases es.len(),
{
    if es.len() > 0 {
        let p = es.drop_last();
        assert(!has_stem(p, k)) by {
            if has_stem(p, k) {
                let i = choose|i: int| 0 <= i < p.len() && entry_stem(#[trigger] p[i]) == Some(k);
                assert(es[i] == p[i]);
            }
        }
        lemma_no_stem_no_files(p, k);
        lemma_files_for_stem(p, k);
        assert(entry_stem(es[es.len() - 1]) != Some(k));
    }
}

proof fn lemma_push_entry(pre: Seq<FolderEntry>, e: FolderEntry)
    ensures
        forall|k: Seq<char>| #[trigger]
            files_for(pre.push(e), k) == files_step(files_for(pre, k), e),
        forall|k: Seq<char>| #[trigger]
            has_stem(pre.push(e), k) <==> (has_stem(pre, k) || entry_stem(e) == Some(k)),
{
    let post = pre.push(e);
    assert(post.drop_last() == pre);
    assert forall|k: Seq<char>| #[trigger]
        has_stem(post, k) <==> (has_stem(pre, k) || entry_stem(e) == Some(k)) by {
        if has_stem(post, k) {
            let j = choose|j: int| 0 <= j < post.len() && entry_stem(#[trigger] post[j]) == Some(k);
            if j < pre.len() {
                assert(pre[j] == post[j]);
            }
        }
        if has_stem(pre, k) {
            let j = choose|j: int| 0 <= j < pre.len() && entry_stem(#[trigger] pre[j]) == Some(k);
            assert(pre[j] == post[j]);
        }
        if entry_stem(e) == Some(k) {
            assert(post[pre.len() as int] == e);
        }
    }
}

/// An entry that belongs to no stem leaves the table as it is.
proof fn lemma_table_other_entry(t: Seq<StemFilesView>, pre: Seq<FolderEntry>, e: FolderEntry)
    requires
        is_stem_table(t, pre),
        entry_stem(e) is None,
    ensures
        is_stem_table(t, pre.push(e)),
{
    lemma_push_entry(pre, e);
    assert forall|q: int| 0 <= q < t.len() implies #[trigger] t[q] == files_for(
        pre.push(e),
        t[q].stem,
    ) by {
        lemma_step_other(t[q], e);
    }
}

/// The position of `stem` in the table, or where it would go.
fn find_stem(table: &Vec<StemFiles>, stem: &String) -> (j: usize)
    ensures
        j <= table@.len(),
        forall|q: int| 0 <= q < j ==> seq_lt(#[trigger] table_view(table@)[q].stem, stem@),
        j < table@.len() ==> !seq_lt(table_view(table@)[j as int].stem, stem@),
{
    let mut j: usize = 0;
    while j < table.len() && str_lt(table[j].stem.as_str(), stem.as_str())
        invariant
            j <= table@.len(),
            forall|q: int| 0 <= q < j ==> seq_lt(#[trigger] table_view(table@)[q].stem, stem@),
        decreases table@.len() - j,
    {
        j = j + 1;
    }
    j
}

/// Records a file of an already known stem.
fn update_stem(
    table: &mut Vec<StemFiles>,
    j: usize,
    Ghost(pre): Ghost<Seq<FolderEntry>>,
    kind: &NameClass,
    name: &String,
    path: &String,
)
    requires
        is_stem_table(table_view(old(table)@), pre),
        kind@ == classify(name@),
        j < old(table)@.len(),
        entry_stem(FolderEntry::File { name: *name, path: *path }) == Some(table_view(old(table)@)[j as int].stem),
    ensures
        is_stem_table(table_view(final(table)@), pre.push(FolderEntry::File { name: *name, path: *path })),
{
    let ghost e = FolderEntry::File { name: *name, path: *path };
    let ghost old_table = table_view(table@);
    let ghost k = old_table[j as int].stem;
    proof {
        lemma_push_entry(pre, e);
    }
    let updated = apply_entry(&table[j], kind, name, path);
    table.set(j, updated);
    proof {
        assert(table_view(old(table)@)[j as int] == old(table)@[j as int]@);
        lemma_step_keeps_stem(old_table[j as int], e);
        assert(updated@.stem == k);
        let post = pre.push(e);
        let nt = table_view(table@);
        assert(nt =~= old_table.update(j as int, updated@));
        assert forall|q: int| 0 <= q < nt.len() implies #[trigger] nt[q] == files_for(
            post,
            nt[q].stem,
        ) by {
            if q != j {
                if entry_stem(e) == Some(old_table[q].stem) {
                    lemma_seq_lt_irreflexive(k);
                    if q < j {
                        assert(seq_lt(old_table[q].stem, old_table[j as int].stem));
                    } else {
                        assert(seq_lt(old_table[j as int].stem, old_table[q].stem));
                    }
                }
                lemma_step_other(old_table[q], e);
            }
        }
        assert forall|k2: Seq<char>|
            has_stem(post, k2) <==> exists|q: int| 0 <= q < nt.len() && (#[trigger] nt[q]).stem == k2 by {
            if has_stem(post, k2) {
                if has_stem(pre, k2) {
                    let q = choose|q: int| 0 <= q < old_table.len() && (#[trigger] old_table[q]).stem == k2;
                    assert(nt[q].stem == k2);
                } else {
                    assert(nt[j as int].stem == k2);
                }
            }
            if exists|q: int| 0 <= q < nt.len() && (#[trigger] nt[q]).stem == k2 {
                let q = choose|q: int| 0 <= q < nt.len() && (#[trigger] nt[q]).stem == k2;
                assert(old_table[q].stem == k2);
                assert(has_stem(pre, k2));
            }
        }
    }
}

/// Records the first file of a new stem at position `j`.
fn insert_stem(
    table: &mut Vec<StemFiles>,
    j: usize,
    Ghost(pre): Ghost<Seq<FolderEntry>>,
    stem: &String,
    kind: &NameClass,
    name: &String,
    path: &String,
)
    requires
        is_stem_table(table_view(old(table)@), pre),
        kind@ == classify(name@),
        j <= old(table)@.len(),
        entry_stem(FolderEntry::File { name: *name, path: *path }) == Some(stem@),
        forall|q: int| 0 <= q < j ==> seq_lt(#[trigger] table_view(old(table)@)[q].stem, stem@),
        j < old(table)@.len() ==> !seq_lt(table_view(old(table)@)[j as int].stem, stem@),
        j < old(table)@.len() ==> table_view(old(table)@)[j as int].stem != stem@,
    ensures
        is_stem_table(table_view(final(table)@), pre.push(FolderEntry::File { name: *name, path: *path })),
{
    let ghost e = FolderEntry::File { name: *name, path: *path };
    let ghost old_table = table_view(table@);
    let ghost k = stem@;
    proof {
        lemma_push_entry(pre, e);
        if j < old_table.len() {
            lemma_seq_lt_total(old_table[j as int].stem, k);
            assert(seq_lt(k, old_table[j as int].stem));
        }
        if has_stem(pre, k) {
            let q = choose|q: int| 0 <= q < old_table.len() && (#[trigger] old_table[q]).stem == k;
            lemma_seq_lt_irreflexive(k);
            if q > j {
                assert(seq_lt(old_table[j as int].stem, old_table[q].stem));
                lemma_seq_lt_transitive(k, old_table[j as int].stem, k);
            }
        }
        lemma_no_stem_no_files(pre, k);
    }
    let empty = StemFiles {
        stem: stem.clone(),
        sidecar: None,
        done: None,
        image: None,
        strays: Vec::new(),
    };
    assert(empty@.strays =~= Seq::<Seq<char>>::empty());
    let fresh = apply_entry(&empty, kind, name, path);
    table.insert(j, fresh);
    proof {
        let post = pre.push(e);
        let nt = table_view(table@);
        assert(nt =~= old_table.insert(j as int, fresh@));
        lemma_step_keeps_stem(no_files(k), e);
        assert forall|a: int, b: int| 0 <= a < b < nt.len() implies seq_lt(
            nt[a].stem,
            nt[b].stem,
        ) by {
            if a < j && b == j {
            } else if a < j && b > j {
                assert(nt[b].stem == old_table[b - 1].stem);
                if a < b - 1 {
                    assert(seq_lt(old_table[a].stem, old_table[b - 1].stem));
                }
                lemma_seq_lt_transitive(old_table[a].stem, k, old_table[j as int].stem);
                if b - 1 > j {
                    assert(seq_lt(old_table[j as int].stem, old_table[b - 1].stem));
                }
            } else if a == j {
                assert(nt[b].stem == old_table[b - 1].stem);
                if b - 1 > j {
                    assert(seq_lt(old_table[j as int].stem, old_table[b - 1].stem));
                    lemma_seq_lt_transitive(k, old_table[j as int].stem, old_table[b - 1].stem);
                }
            } else if b < j {
                assert(nt[a] == old_table[a]);
                assert(nt[b] == old_table[b]);
            } else {
                assert(a > j);
                assert(nt[a] == old_table[a - 1]);
                assert(nt[b] == old_table[b - 1]);
            }
        }
        assert forall|q: int| 0 <= q < nt.len() implies #[trigger] nt[q] == files_for(
            post,
            nt[q].stem,
        ) by {
            if q != j {
                let oq = if q < j { q } else { q - 1 };
                assert(nt[q] == old_table[oq]);
                if entry_stem(e) == Some(old_table[oq].stem) {
                    lemma_seq_lt_irreflexive(k);
                    if oq > j {
                        assert(seq_lt(old_table[j as int].stem, old_table[oq].stem));
                        lemma_seq_lt_transitive(k, old_table[j as int].stem, k);
                    }
                }
                lemma_step_other(old_table[oq], e);
            }
        }
        assert forall|k2: Seq<char>|
            has_stem(post, k2) <==> exists|q: int| 0 <= q < nt.len() && (#[trigger] nt[q]).stem == k2 by {
            if has_stem(post, k2) {
                if has_stem(pre, k2) {
                    let q = choose|q: int| 0 <= q < old_table.len() && (#[trigger] old_table[q]).stem == k2;
                    if q < j {
                        assert(nt[q].stem == k2);
                    } else {
                        assert(nt[q + 1].stem == k2);
                    }
                } else {
                    assert(nt[j as int].stem == k2);
                }
            }
            if exists|q: int| 0 <= q < nt.len() && (#[trigger] nt[q]).stem == k2 {
                let q = choose|q: int| 0 <= q < nt.len() && (#[trigger] nt[q]).stem == k2;
                if q < j {
                    assert(old_table[q].stem == k2);
                } else if q > j {
                    assert(old_table[q - 1].stem == k2);
                }
            }
        }
    }
}

/// The errors of reading the entries, and the table of stems they form.
pub fn scan_entries(es: &Vec<FolderEntry>) -> (res: (Vec<PreflightError>, Vec<StemFiles>))
    ensures
        res.0@.map_values(|e: PreflightError| e@) == entry_errors(es@),
        is_stem_table(table_view(res.1@), es@),
{
    let mut errors: Vec<PreflightError> = Vec::new();
    let mut table: Vec<StemFiles> = Vec::new();
    let mut i: usize = 0;
    assert(es@.take(0) =~= Seq::<FolderEntry>::empty());
    assert(errors@.map_values(|e: PreflightError| e@) =~= entry_errors(es@.take(0)));
    while i < es.len()
        invariant
            i <= es@.len(),
            errors@.map_values(|e: PreflightError| e@) == entry_errors(es@.take(i as int)),
            is_stem_table(table_view(table@), es@.take(i as int)),
        decreases es@.len() - i,
    {
        let ghost pre = es@.take(i as int);
        proof {
            assert(es@.take(i + 1) == pre.push(es@[i as int]));
            assert(es@.take(i + 1).drop_last() == pre);
        }
        match &es[i] {
            FolderEntry::Unreadable(msg) => {
                errors.push(
                    PreflightError {
                        source: to_string("folder"),
                        message: cat2("directory entry error: ", msg.as_str()),
                    },
                );
                proof {
                    assert(errors@.map_values(|e: PreflightError| e@) =~= entry_errors(es@.take(i + 1)));
                    lemma_table_other_entry(table_view(table@), pre, es@[i as int]);
                }
            },
            FolderEntry::File { name, path } => {
                let kind = classify_name(name.as_str());
                match &kind {
                    NameClass::Rejected(m) => {
                        errors.push(PreflightError { source: name.clone(), message: m.clone() });
                        proof {
                            assert(errors@.map_values(|e: PreflightError| e@) =~= entry_errors(es@.take(i + 1)));
                            lemma_table_other_entry(table_view(table@), pre, es@[i as int]);
                        }
                    },
                    _ => {
                        let stem: &String = match &kind {
                            NameClass::Done(s) => s,
                            NameClass::Sidecar(s) => s,
                            NameClass::Image(s) => s,
                            NameClass::Rejected(s) => s,
                        };
                        assert(entry_errors(es@.take(i + 1)) == entry_errors(pre));
                        let j = find_stem(&table, stem);
                        if j < table.len() && str_eq(table[j].stem.as_str(), stem.as_str()) {
                            update_stem(&mut table, j, Ghost(pre), &kind, name, path);
                        } else {
                            insert_stem(&mut table, j, Ghost(pre), stem, &kind, name, path);
                        }
                    },
                }
            },
        }
        i = i + 1;
    }
    assert(es@.take(es@.len() as int) =~= es@);
    (errors, table)
}

} // verus!

verus! {

/// The message for a second image of the same stem.
pub open spec fn duplicate_msg(stem: Seq<char>) -> Seq<char> {
    "duplicate image file for stem `"@ + stem + "` (only one image per stem)"@
}

/// One error per stray image, stem by stem.
pub open spec fn stray_errors(t: Seq<StemFilesView>) -> Seq<(Seq<char>, Seq<char>)>
    decreases t.len(),
{
    if t.len() == 0 {
        Seq::empty()
    } else {
        stray_errors(t.drop_last()) + t.last().strays.map_values(
            |n: Seq<char>| (n, duplicate_msg(t.last().stem)),
        )
    }
}

/// The stem expected at position `i` (0-based): `{:06}` of `i + 1`.
pub open spec fn expected_stem(i: int) -> Seq<char> {
    zero_pad(decimal((i + 1) as nat), 6)
}

/// The first position from `i` on whose stem is not the expected one.
pub open spec fn first_gap_from(stems: Seq<Seq<char>>, i: int) -> Option<int>
    decreases stems.len() - i,
{
    if i < 0 || i >= stems.len() {
        None
    } else if stems[i] != expected_stem(i) {
        Some(i)
    } else {
        first_gap_from(stems, i + 1)
    }
}

pub open spec fn stems_of(t: Seq<StemFilesView>) -> Seq<Seq<char>> {
    t.map_values(|f: StemFilesView| f.stem)
}

/// The numbering error, if the stems are not exactly `000001..`.
pub open spec fn numbering_errors(stems: Seq<Seq<char>>) -> Seq<(Seq<char>, Seq<char>)> {
    match first_gap_from(stems, 0) {
        None => Seq::empty(),
        Some(i) => seq![
            (
                "folder"@,
                "numbering must be contiguous 000001.."@ + zero_pad(decimal(stems.len()), 6)
                    + "; expected `"@ + expected_stem(i) + "` at position "@ + decimal(
                    (i + 1) as nat,
                ) + ", found `"@ + stems[i] + "`"@,
            ),
        ],
    }
}

/// The entries read, grouped by stem, with the errors found so far.
#[derive(Debug)]
pub struct FolderScan {
    pub errors: Vec<PreflightError>,
    pub stems: Vec<StemFiles>,
}

/// What a scan of `es` finds: entry errors, then stray images, then the
/// numbering check.
pub open spec fn is_scan_of(scan: FolderScan, es: Seq<FolderEntry>) -> bool {
    let t = table_view(scan.stems@);
    &&& is_stem_table(t, es)
    &&& scan.errors@.map_values(|e: PreflightError| e@) == entry_errors(es) + stray_errors(t)
        + numbering_errors(stems_of(t))
}

fn push_error(errors: &mut Vec<PreflightError>, source: String, message: String)
    ensures
        final(errors)@.map_values(|e: PreflightError| e@) == old(errors)@.map_values(
            |e: PreflightError| e@,
        ).push((source@, message@)),
{
    errors.push(PreflightError { source, message });
    assert(errors@.map_values(|e: PreflightError| e@) =~= old(errors)@.map_values(
        |e: PreflightError| e@,
    ).push((source@, message@)));
}

fn push_stray_errors(errors: &mut Vec<PreflightError>, table: &Vec<StemFiles>)
    ensures
        final(errors)@.map_values(|e: PreflightError| e@) == old(errors)@.map_values(
            |e: PreflightError| e@,
        ) + stray_errors(table_view(table@)),
{
    let ghost start = errors@.map_values(|e: PreflightError| e@);
    let mut i: usize = 0;
    assert(table_view(table@).take(0) =~= Seq::<StemFilesView>::empty());
    assert(start + stray_errors(table_view(table@).take(0)) =~= start);
    while i < table.len()
        invariant
            i <= table@.len(),
            errors@.map_values(|e: PreflightError| e@) == start + stray_errors(
                table_view(table@).take(i as int),
            ),
        decreases table@.len() - i,
    {
        let f = &table[i];
        let ghost before = errors@.map_values(|e: PreflightError| e@);
        let mut s: usize = 0;
        while s < f.strays.len()
            invariant
                s <= f.strays@.len(),
                errors@.map_values(|e: PreflightError| e@) == before + f@.strays.take(
                    s as int,
                ).map_values(|n: Seq<char>| (n, duplicate_msg(f@.stem))),
            decreases f.strays@.len() - s,
        {
            let msg = cat3(
                "duplicate image file for stem `",
                f.stem.as_str(),
                "` (only one image per stem)",
            );
            push_error(errors, f.strays[s].clone(), msg);
            assert(f@.strays.take(s + 1).map_values(|n: Seq<char>| (n, duplicate_msg(f@.stem)))
                =~= f@.strays.take(s as int).map_values(
                |n: Seq<char>| (n, duplicate_msg(f@.stem)),
            ).push((f@.strays[s as int], duplicate_msg(f@.stem))));
            s = s + 1;
        }
        proof {
            let t = table_view(table@);
            assert(t.take(i + 1).drop_last() =~= t.take(i as int));
            assert(t.take(i + 1).last() == f@);
            assert(f@.strays.take(f@.strays.len() as int) =~= f@.strays);
            assert(start + stray_errors(t.take(i + 1)) =~= before + f@.strays.map_values(
                |n: Seq<char>| (n, duplicate_msg(f@.stem)),
            ));
        }
        i = i + 1;
    }
    assert(table_view(table@).take(table@.len() as int) =~= table_view(table@));
}

fn push_numbering_error(errors: &mut Vec<PreflightError>, table: &Vec<StemFiles>)
    ensures
        final(errors)@.map_values(|e: PreflightError| e@) == old(errors)@.map_values(
            |e: PreflightError| e@,
        ) + numbering_errors(stems_of(table_view(table@))),
{
    let ghost stems = stems_of(table_view(table@));
    let total = table.len();
    let mut i: usize = 0;
    while i < total
        invariant
            total == table@.len() == stems.len(),
            stems == stems_of(table_view(table@)),
            i <= total,
            first_gap_from(stems, 0) == first_gap_from(stems, i as int),
            errors@ == old(errors)@,
        decreases total - i,
    {
        let expected = padded_decimal((i + 1) as u64, 6);
        if !str_eq(table[i].stem.as_str(), expected.as_str()) {
            let mut msg = to_string("numbering must be contiguous 000001..");
            let total_str = padded_decimal(total as u64, 6);
            push_str(&mut msg, total_str.as_str());
            push_str(&mut msg, "; expected `");
            push_str(&mut msg, expected.as_str());
            push_str(&mut msg, "` at position ");
            let pos = crate::text::decimal_string((i + 1) as u64);
            push_str(&mut msg, pos.as_str());
            push_str(&mut msg, ", found `");
            push_str(&mut msg, table[i].stem.as_str());
            push_str(&mut msg, "`");
            push_error(errors, to_string("folder"), msg);
            proof {
                assert(stems[i as int] == table@[i as int].stem@);
                assert(first_gap_from(stems, i as int) == Some(i as int));
                assert(numbering_errors(stems) =~= seq![(
                    "folder"@,
                    msg@,
                )]);
            }
            return;
        }
        assert(stems[i as int] == table@[i as int].stem@);
        i = i + 1;
    }
    assert(first_gap_from(stems, i as int) is None);
    assert(numbering_errors(stems) =~= Seq::empty());
    assert(errors@.map_values(|e: PreflightError| e@) =~= old(errors)@.map_values(
        |e: PreflightError| e@,
    ) + numbering_errors(stems));
}

/// Reads the folder's entries: classifies every file name, groups the pair
/// files by stem, and reports stray images and gaps in the numbering.
pub fn scan_folder(entries: &Vec<FolderEntry>) -> (scan: FolderScan)
    ensures
        is_scan_of(scan, entries@),
{
    let (mut errors, stems) = scan_entries(entries);
    push_stray_errors(&mut errors, &stems);
    push_numbering_error(&mut errors, &stems);
    FolderScan { errors, stems }
}

} // verus!

verus! {

#[derive(Debug)]
pub struct PreflightPair {
    pub stem: String,
    pub sidecar_path: String,
    pub image_path: String,
    pub sidecar: Sidecar,
}

pub struct PreflightPairView {
    pub stem: Seq<char>,
    pub sidecar_path: Seq<char>,
    pub image_path: Seq<char>,
    pub sidecar: SidecarView,
}

impl View for PreflightPair {
    type V = PreflightPairView;

    open spec fn view(&self) -> PreflightPairView {
        PreflightPairView {
            stem: self.stem@,
            sidecar_path: self.sidecar_path@,
            image_path: self.image_path@,
            sidecar: self.sidecar@,
        }
    }
}

#[derive(Debug)]
pub struct CompletedPair {
    pub stem: String,
    pub done_path: String,
    pub image_id: Option<i64>,
}

impl View for CompletedPair {
    type V = (Seq<char>, Seq<char>, Option<i64>);

    open spec fn view(&self) -> (Seq<char>, Seq<char>, Option<i64>) {
        (self.stem@, self.done_path@, self.image_id)
    }
}

#[derive(Debug)]
pub struct PreflightResult {
    pub folder: String,
    pub pending: Vec<PreflightPair>,
    pub completed: Vec<CompletedPair>,
    pub errors: Vec<PreflightError>,
    pub license_names: Vec<String>,
}

/// What became of one stem.
pub enum StemOutcome {
    Pending(PreflightPairView),
    Completed((Seq<char>, Seq<char>, Option<i64>)),
    Blocked((Seq<char>, Seq<char>)),
}

/// The file whose content the pre-flight needs for this stem: the done
/// sidecar of a committed pair, or the sidecar of a complete pending pair.
pub open spec fn needed_file(f: StemFilesView) -> Option<Seq<char>> {
    match f.done {
        Some(d) => if f.sidecar is Some {
            None
        } else {
            Some(d)
        },
        None => if f.sidecar is Some && f.image is Some {
            f.sidecar
        } else {
            None
        },
    }
}

/// The `image_id` of a done sidecar's `committed` block
/// (`v.get("committed")?.get("image_id")?.as_i64()`).
pub open spec fn committed_image_id(v: JsonValue) -> Option<i64> {
    match v {
        JsonValue::Object(m) => match member(m@, "committed"@) {
            Some(JsonValue::Object(c)) => match member(c@, "image_id"@) {
                Some(JsonValue::Number(n)) => n,
                _ => None,
            },
            _ => None,
        },
        _ => None,
    }
}

/// The image id read back from a done sidecar; `None` when unreadable.
pub open spec fn done_image_id(read: Option<Result<Seq<char>, Seq<char>>>) -> Option<i64> {
    match read {
        Some(Ok(raw)) => match json_parse(raw) {
            Ok(v) => committed_image_id(v),
            Err(_) => None,
        },
        _ => None,
    }
}

/// Whether the server recognizes `name`, ignoring case.
pub open spec fn license_known(name: Seq<char>, licenses: Seq<Seq<char>>) -> bool {
    exists|i: int| 0 <= i < licenses.len() && lowercase(#[trigger] licenses[i]) == lowercase(name)
}

/// Pair-level checks for one stem, given the content of its needed file.
pub open spec fn stem_outcome(
    f: StemFilesView,
    read: Option<Result<Seq<char>, Seq<char>>>,
    licenses: Seq<Seq<char>>,
) -> StemOutcome {
    let json = f.stem + ".json"@;
    if f.done is Some {
        if f.sidecar is Some {
            StemOutcome::Blocked((json, "both `.json` and `.json.done` present for the same stem"@))
        } else {
            StemOutcome::Completed((f.stem, f.done->0, done_image_id(read)))
        }
    } else if f.sidecar is None {
        StemOutcome::Blocked(
            (f.stem + ".*"@, "no sidecar `"@ + f.stem + ".json` for image"@),
        )
    } else if f.image is None {
        StemOutcome::Blocked((json, "no image file paired with `"@ + f.stem + ".json`"@))
    } else {
        match read {
            Some(Ok(raw)) => match sidecar_from_text(raw) {
                Err(e) => StemOutcome::Blocked((json, e)),
                Ok(sc) => {
                    let image_name = (f.image->0).0;
                    if sc.filename != image_name {
                        StemOutcome::Blocked(
                            (
                                json,
                                "`filename` is \""@ + sc.filename + "\" but paired image is `"@
                                    + image_name + "`"@,
                            ),
                        )
                    } else if sc.license_name is Some && !license_known(
                        sc.license_name->0,
                        licenses,
                    ) {
                        StemOutcome::Blocked(
                            (
                                json,
                                "license `"@ + sc.license_name->0
                                    + "` is not recognized by this server"@,
                            ),
                        )
                    } else {
                        StemOutcome::Pending(
                            PreflightPairView {
                                stem: f.stem,
                                sidecar_path: f.sidecar->0,
                                image_path: (f.image->0).1,
                                sidecar: sc,
                            },
                        )
                    }
                },
            },
            Some(Err(e)) => StemOutcome::Blocked((json, "could not read sidecar: "@ + e)),
            None => StemOutcome::Blocked((json, "could not read sidecar: "@)),
        }
    }
}

/// The file whose content the pre-flight needs for this stem, if any.
pub fn file_to_read(f: &StemFiles) -> (res: Option<String>)
    ensures
        opt_view(res) == needed_file(f@),
{
    match &f.done {
        Some(d) => if f.sidecar.is_some() {
            None
        } else {
            Some(d.clone())
        },
        None => if f.sidecar.is_some() && f.image.is_some() {
            clone_opt(&f.sidecar)
        } else {
            None
        },
    }
}

fn read_done_image_id(read: &Option<Result<String, String>>) -> (res: Option<i64>)
    ensures
        res == done_image_id(
            match read {
                Some(Ok(s)) => Some(Ok::<Seq<char>, Seq<char>>(s@)),
                Some(Err(e)) => Some(Err::<Seq<char>, Seq<char>>(e@)),
                None => None,
            },
        ),
{
    match read {
        Some(Ok(raw)) => match parse_json(raw.as_str()) {
            Ok(v) => match &v {
                JsonValue::Object(m) => match get_member(m, "committed") {
                    Some(JsonValue::Object(c)) => match get_member(c, "image_id") {
                        Some(JsonValue::Number(n)) => *n,
                        _ => None,
                    },
                    _ => None,
                },
                _ => None,
            },
            Err(_) => None,
        },
        _ => None,
    }
}

} // verus!

verus! {

/// Exec form of [`StemOutcome`].
#[derive(Debug)]
pub enum PairOutcome {
    Pending(PreflightPair),
    Completed(CompletedPair),
    Blocked(PreflightError),
}

impl View for PairOutcome {
    type V = StemOutcome;

    open spec fn view(&self) -> StemOutcome {
        match self {
            PairOutcome::Pending(p) => StemOutcome::Pending(p@),
            PairOutcome::Completed(c) => StemOutcome::Completed(c@),
            PairOutcome::Blocked(e) => StemOutcome::Blocked(e@),
        }
    }
}

pub open spec fn read_view(read: Option<Result<String, String>>) -> Option<
    Result<Seq<char>, Seq<char>>,
> {
    match read {
        Some(Ok(s)) => Some(Ok(s@)),
        Some(Err(e)) => Some(Err(e@)),
        None => None,
    }
}

/// The lower-cased forms of the license names.
pub open spec fn lowered(licenses: Seq<Seq<char>>) -> Seq<Seq<char>> {
    licenses.map_values(|l: Seq<char>| lowercase(l))
}

fn lower_all(licenses: &Vec<String>) -> (res: Vec<String>)
    ensures
        res@.map_values(|s: String| s@) == lowered(licenses@.map_values(|s: String| s@)),
{
    let mut out: Vec<String> = Vec::new();
    let mut i: usize = 0;
    while i < licenses.len()
        invariant
            i <= licenses@.len(),
            out@.len() == i,
            forall|j: int| 0 <= j < i ==> #[trigger] out@[j]@ == lowercase(licenses@[j]@),
        decreases licenses@.len() - i,
    {
        out.push(to_lowercase(licenses[i].as_str()));
        i = i + 1;
    }
    assert(out@.map_values(|s: String| s@) =~= lowered(licenses@.map_values(|s: String| s@)));
    out
}

fn known_license(name: &str, lower: &Vec<String>, Ghost(licenses): Ghost<Seq<Seq<char>>>) -> (res:
    bool)
    requires
        lower@.map_values(|s: String| s@) == lowered(licenses),
    ensures
        res == license_known(name@, licenses),
{
    let wanted = to_lowercase(name);
    let mut i: usize = 0;
    assert(lower@.map_values(|s: String| s@).len() == lowered(licenses).len());
    while i < lower.len()
        invariant
            lower@.map_values(|s: String| s@) == lowered(licenses),
            lower@.len() == licenses.len(),
            wanted@ == lowercase(name@),
            i <= lower@.len(),
            forall|j: int| 0 <= j < i ==> lowercase(#[trigger] licenses[j]) != lowercase(name@),
        decreases lower@.len() - i,
    {
        assert(lower@.map_values(|s: String| s@)[i as int] == lower@[i as int]@);
        assert(lowered(licenses)[i as int] == lowercase(licenses[i as int]));
        if str_eq(lower[i].as_str(), wanted.as_str()) {
            return true;
        }
        i = i + 1;
    }
    false
}

/// Pair-level checks for one stem: a committed pair, a pair ready to
/// import, or the error that blocks it. `lower` holds the server's license
/// names in lower case.
pub fn outcome_for(
    f: &StemFiles,
    read: &Option<Result<String, String>>,
    lower: &Vec<String>,
    Ghost(licenses): Ghost<Seq<Seq<char>>>,
) -> (res: PairOutcome)
    requires
        lower@.map_values(|s: String| s@) == lowered(licenses),
    ensures
        res@ == stem_outcome(f@, read_view(*read), licenses),
{
    let json = cat2(f.stem.as_str(), ".json");
    if let Some(done) = &f.done {
        if f.sidecar.is_some() {
            return PairOutcome::Blocked(
                PreflightError {
                    source: json,
                    message: to_string("both `.json` and `.json.done` present for the same stem"),
                },
            );
        }
        let image_id = read_done_image_id(read);
        return PairOutcome::Completed(
            CompletedPair { stem: f.stem.clone(), done_path: done.clone(), image_id },
        );
    }
    let sidecar_path = match &f.sidecar {
        Some(p) => p,
        None => {
            return PairOutcome::Blocked(
                PreflightError {
                    source: cat2(f.stem.as_str(), ".*"),
                    message: cat3("no sidecar `", f.stem.as_str(), ".json` for image"),
                },
            );
        },
    };
    let (image_name, image_path) = match &f.image {
        Some((n, p)) => (n, p),
        None => {
            return PairOutcome::Blocked(
                PreflightError {
                    source: json,
                    message: cat3("no image file paired with `", f.stem.as_str(), ".json`"),
                },
            );
        },
    };
    let raw = match read {
        Some(Ok(raw)) => raw,
        Some(Err(e)) => {
            return PairOutcome::Blocked(
                PreflightError { source: json, message: cat2("could not read sidecar: ", e.as_str()) },
            );
        },
        None => {
            return PairOutcome::Blocked(
                PreflightError { source: json, message: to_string("could not read sidecar: ") },
            );
        },
    };
    let sidecar = match parse_sidecar(raw.as_str()) {
        Ok(s) => s,
        Err(e) => {
            return PairOutcome::Blocked(PreflightError { source: json, message: e });
        },
    };
    if !str_eq(sidecar.filename.as_str(), image_name.as_str()) {
        let mut msg = cat3("`filename` is \"", sidecar.filename.as_str(), "\" but paired image is `");
        push_str(&mut msg, image_name.as_str());
        push_str(&mut msg, "`");
        return PairOutcome::Blocked(PreflightError { source: json, message: msg });
    }
    if let Some(name) = &sidecar.license_name {
        if !known_license(name.as_str(), lower, Ghost(licenses)) {
            return PairOutcome::Blocked(
                PreflightError {
                    source: json,
                    message: cat3("license `", name.as_str(), "` is not recognized by this server"),
                },
            );
        }
    }
    PairOutcome::Pending(
        PreflightPair {
            stem: f.stem.clone(),
            sidecar_path: sidecar_path.clone(),
            image_path: image_path.clone(),
            sidecar,
        },
    )
}

} // verus!

verus! {

pub open spec fn pending_of(os: Seq<StemOutcome>) -> Seq<PreflightPairView>
    decreases os.len(),
{
    if os.len() == 0 {
        Seq::empty()
    } else {
        match os.last() {
            StemOutcome::Pending(p) => pending_of(os.drop_last()).push(p),
            _ => pending_of(os.drop_last()),
        }
    }
}

pub open spec fn completed_of(os: Seq<StemOutcome>) -> Seq<(Seq<char>, Seq<char>, Option<i64>)>
    decreases os.len(),
{
    if os.len() == 0 {
        Seq::empty()
    } else {
        match os.last() {
            StemOutcome::Completed(c) => completed_of(os.drop_last()).push(c),
            _ => completed_of(os.drop_last()),
        }
    }
}

pub open spec fn blocked_of(os: Seq<StemOutcome>) -> Seq<(Seq<char>, Seq<char>)>
    decreases os.len(),
{
    if os.len() == 0 {
        Seq::empty()
    } else {
        match os.last() {
            StemOutcome::Blocked(e) => blocked_of(os.drop_last()).push(e),
            _ => blocked_of(os.drop_last()),
        }
    }
}

/// The server's license list as fetched: `None` when it was not needed.
pub open spec fn fetched_view(fetched: Option<Result<Vec<String>, String>>) -> Option<
    Result<Seq<Seq<char>>, Seq<char>>,
> {
    match fetched {
        Some(Ok(v)) => Some(Ok(v@.map_values(|s: String| s@))),
        Some(Err(e)) => Some(Err(e@)),
        None => None,
    }
}

pub open spec fn fetched_names(fetched: Option<Result<Seq<Seq<char>>, Seq<char>>>) -> Seq<
    Seq<char>,
> {
    match fetched {
        Some(Ok(v)) => v,
        _ => Seq::empty(),
    }
}

pub open spec fn fetch_errors(fetched: Option<Result<Seq<Seq<char>>, Seq<char>>>) -> Seq<
    (Seq<char>, Seq<char>),
> {
    match fetched {
        Some(Err(e)) => seq![("folder"@, "could not fetch license list: "@ + e)],
        _ => Seq::empty(),
    }
}

/// The outcome of every stem of the table.
pub open spec fn outcomes(
    t: Seq<StemFilesView>,
    reads: Seq<Option<Result<Seq<char>, Seq<char>>>>,
    licenses: Seq<Seq<char>>,
) -> Seq<StemOutcome> {
    Seq::new(t.len(), |i: int| stem_outcome(t[i], reads[i], licenses))
}

/// Strictly ascending, holding exactly the names of `names`.
pub open spec fn is_sorted_set_of(v: Seq<Seq<char>>, names: Seq<Seq<char>>) -> bool {
    &&& forall|i: int, j: int| 0 <= i < j < v.len() ==> seq_lt(v[i], v[j])
    &&& forall|x: Seq<char>| v.contains(x) <==> names.contains(x)
}

/// Whether the license list is needed: some stem has both a sidecar and an image.
pub open spec fn license_list_needed(t: Seq<StemFilesView>) -> bool {
    exists|i: int| 0 <= i < t.len() && (#[trigger] t[i]).sidecar is Some && t[i].image is Some
}

/// Whether the server's license list must be fetched: only when some stem
/// has both a sidecar and an image, so a folder of committed pairs needs no
/// network round-trip.
pub fn needs_licenses(scan: &FolderScan) -> (res: bool)
    ensures
        res == license_list_needed(table_view(scan.stems@)),
{
    let mut i: usize = 0;
    while i < scan.stems.len()
        invariant
            i <= scan.stems@.len(),
            forall|j: int|
                0 <= j < i ==> !((#[trigger] table_view(scan.stems@)[j]).sidecar is Some
                    && table_view(scan.stems@)[j].image is Some),
        decreases scan.stems@.len() - i,
    {
        assert(table_view(scan.stems@)[i as int] == scan.stems@[i as int]@);
        if scan.stems[i].sidecar.is_some() && scan.stems[i].image.is_some() {
            return true;
        }
        i = i + 1;
    }
    false
}

/// Adds `name` to a strictly ascending list unless it is there already.
fn insert_sorted(v: &mut Vec<String>, name: &String)
    requires
        forall|i: int, j: int|
            0 <= i < j < old(v)@.len() ==> seq_lt(old(v)@[i]@, old(v)@[j]@),
    ensures
        forall|i: int, j: int|
            0 <= i < j < final(v)@.len() ==> seq_lt(final(v)@[i]@, final(v)@[j]@),
        forall|x: Seq<char>|
            views(final(v)@).contains(x) <==> (views(old(v)@).contains(x) || x == name@),
{
    let ghost ov = v@;
    let mut j: usize = 0;
    while j < v.len() && str_lt(v[j].as_str(), name.as_str())
        invariant
            j <= v@.len(),
            v@ == ov,
            forall|q: int| 0 <= q < j ==> seq_lt(#[trigger] v@[q]@, name@),
        decreases v@.len() - j,
    {
        j = j + 1;
    }
    if j < v.len() && str_eq(v[j].as_str(), name.as_str()) {
        assert forall|x: Seq<char>|
            views(v@).contains(x) <==> (views(ov).contains(
                x,
            ) || x == name@) by {
            if x == name@ {
                assert(views(v@)[j as int] == x);
            }
        }
        return;
    }
    v.insert(j, name.clone());
    proof {
        let nv = v@;
        assert(nv == ov.insert(j as int, nv[j as int]));
        if j < ov.len() {
            lemma_seq_lt_total(ov[j as int]@, name@);
        }
        assert forall|a: int, b: int| 0 <= a < b < nv.len() implies seq_lt(nv[a]@, nv[b]@) by {
            if b == j {
            } else if a == j {
                assert(nv[b] == ov[b - 1]);
                if b - 1 > j {
                    lemma_seq_lt_transitive(name@, ov[j as int]@, ov[b - 1]@);
                }
            } else if a < j && b > j {
                assert(nv[b] == ov[b - 1]);
                lemma_seq_lt_transitive(ov[a]@, name@, ov[j as int]@);
                if b - 1 > j {
                    lemma_seq_lt_transitive(ov[a]@, ov[j as int]@, ov[b - 1]@);
                }
            } else if b < j {
                assert(nv[a] == ov[a]);
                assert(nv[b] == ov[b]);
            } else {
                assert(nv[a] == ov[a - 1]);
                assert(nv[b] == ov[b - 1]);
            }
        }
        assert forall|x: Seq<char>|
            views(nv).contains(x) <==> (views(ov).contains(
                x,
            ) || x == name@) by {
            if views(nv).contains(x) {
                let q = choose|q: int| 0 <= q < nv.len() && views(nv)[q] == x;
                if q < j {
                    assert(views(ov)[q] == x);
                } else if q > j {
                    assert(views(ov)[q - 1] == x);
                }
            }
            if views(ov).contains(x) {
                let q = choose|q: int| 0 <= q < ov.len() && views(ov)[q] == x;
                if q < j {
                    assert(views(nv)[q] == x);
                } else {
                    assert(views(nv)[q + 1] == x);
                }
            }
            if x == name@ {
                assert(views(nv)[j as int] == x);
            }
        }
    }
}

/// The names sorted, each once.
pub fn sorted_unique(names: &Vec<String>) -> (res: Vec<String>)
    ensures
        is_sorted_set_of(views(res@), views(names@)),
{
    let mut out: Vec<String> = Vec::new();
    let mut i: usize = 0;
    while i < names.len()
        invariant
            i <= names@.len(),
            forall|a: int, b: int| 0 <= a < b < out@.len() ==> seq_lt(out@[a]@, out@[b]@),
            forall|x: Seq<char>|
                views(out@).contains(x) <==> views(names@.take(
                    i as int,
                )).contains(x),
        decreases names@.len() - i,
    {
        let ghost prev = out@;
        insert_sorted(&mut out, &names[i]);
        proof {
            assert forall|x: Seq<char>|
                views(names@.take(i + 1)).contains(x) <==> (views(names@.take(
                    i as int,
                )).contains(x) || x == names@[i as int]@) by {
                let p = views(names@.take(i as int));
                let q = views(names@.take(i + 1));
                assert(q =~= p.push(names@[i as int]@));
                if q.contains(x) {
                    let k = choose|k: int| 0 <= k < q.len() && q[k] == x;
                    if k < i {
                        assert(p[k] == x);
                    }
                }
                if p.contains(x) {
                    let k = choose|k: int| 0 <= k < p.len() && p[k] == x;
                    assert(q[k] == x);
                }
                if x == names@[i as int]@ {
                    assert(q[i as int] == x);
                }
            }
            assert forall|x: Seq<char>|
                views(out@).contains(x) <==> views(names@.take(i + 1)).contains(x) by {
                assert(views(out@).contains(x) <==> (views(prev).contains(x) || x == names@[i as int]@));
                assert(views(prev).contains(x) <==> views(names@.take(i as int)).contains(x));
                assert(views(names@.take(i + 1)).contains(x) <==> (views(names@.take(i as int)).contains(x) || x == names@[i as int]@));
            }
        }
        i = i + 1;
    }
    proof {
        assert(names@.take(names@.len() as int) =~= names@);
        let o = views(out@);
        assert forall|a: int, b: int| 0 <= a < b < o.len() implies seq_lt(o[a], o[b]) by {
            assert(o[a] == out@[a]@);
            assert(o[b] == out@[b]@);
        }
    }
    out
}

} // verus!

verus! {

/// The views of a list of errors.
pub open spec fn error_views(v: Seq<PreflightError>) -> Seq<(Seq<char>, Seq<char>)> {
    v.map_values(|e: PreflightError| e@)
}

/// The whole pre-flight answer for a scanned folder, given the license list
/// (when it was fetched) and the content of each stem's needed file.
pub open spec fn is_preflight_of(
    res: PreflightResult,
    folder: Seq<char>,
    scan: FolderScan,
    fetched: Option<Result<Seq<Seq<char>>, Seq<char>>>,
    reads: Seq<Option<Result<Seq<char>, Seq<char>>>>,
) -> bool {
    let t = table_view(scan.stems@);
    let os = outcomes(t, reads, fetched_names(fetched));
    &&& res.folder@ == folder
    &&& res.pending@.map_values(|p: PreflightPair| p@) == pending_of(os)
    &&& res.completed@.map_values(|c: CompletedPair| c@) == completed_of(os)
    &&& error_views(res.errors@) == error_views(scan.errors@) + fetch_errors(fetched) + blocked_of(
        os,
    )
    &&& is_sorted_set_of(views(res.license_names@), fetched_names(fetched))
}

/// Assembles the pre-flight result: the pairs ready to import, the
/// already-committed pairs, every blocking error, and the server's license
/// names sorted. `reads[i]` is the content of the needed file of stem `i`.
pub fn preflight_folder(
    folder: String,
    scan: FolderScan,
    fetched: Option<Result<Vec<String>, String>>,
    reads: Vec<Option<Result<String, String>>>,
) -> (res: PreflightResult)
    requires
        reads@.len() == scan.stems@.len(),
        forall|i: int|
            0 <= i < reads@.len() && (#[trigger] needed_file(scan.stems@[i]@)) is Some
                ==> reads@[i] is Some,
    ensures
        is_preflight_of(
            res,
            folder@,
            scan,
            fetched_view(fetched),
            reads@.map_values(|r: Option<Result<String, String>>| read_view(r)),
        ),
{
    let ghost fv = fetched_view(fetched);
    let ghost rv = reads@.map_values(|r: Option<Result<String, String>>| read_view(r));
    let ghost t = table_view(scan.stems@);
    let ghost names = fetched_names(fv);
    let mut errors = scan.errors;
    let empty: Vec<String> = Vec::new();
    let names_vec: &Vec<String> = match &fetched {
        Some(Ok(v)) => v,
        _ => &empty,
    };
    assert(views(names_vec@) == names) by {
        assert(views(empty@) =~= Seq::<Seq<char>>::empty());
    }
    if let Some(Err(e)) = &fetched {
        push_error(&mut errors, to_string("folder"), cat2("could not fetch license list: ", e.as_str()));
    }
    assert(error_views(errors@) == error_views(scan.errors@) + fetch_errors(fv)) by {
        if !(fetched matches Some(Err(_))) {
            assert(error_views(scan.errors@) + fetch_errors(fv) =~= error_views(scan.errors@));
        }
    }
    let lower = lower_all(names_vec);
    let ghost before = error_views(errors@);
    let mut pending: Vec<PreflightPair> = Vec::new();
    let mut completed: Vec<CompletedPair> = Vec::new();
    let mut i: usize = 0;
    let ghost os = outcomes(t, rv, names);
    assert(os.take(0) =~= Seq::<StemOutcome>::empty());
    while i < scan.stems.len()
        invariant
            i <= scan.stems@.len(),
            reads@.len() == scan.stems@.len(),
            t == table_view(scan.stems@),
            rv == reads@.map_values(|r: Option<Result<String, String>>| read_view(r)),
            os == outcomes(t, rv, names),
            lower@.map_values(|s: String| s@) == lowered(names),
            pending@.map_values(|p: PreflightPair| p@) == pending_of(os.take(i as int)),
            completed@.map_values(|c: CompletedPair| c@) == completed_of(os.take(i as int)),
            error_views(errors@) == before + blocked_of(os.take(i as int)),
        decreases scan.stems@.len() - i,
    {
        let outcome = outcome_for(&scan.stems[i], &reads[i], &lower, Ghost(names));
        proof {
            assert(t[i as int] == scan.stems@[i as int]@);
            assert(rv[i as int] == read_view(reads@[i as int]));
            assert(outcome@ == os[i as int]);
            assert(os.take(i + 1).drop_last() =~= os.take(i as int));
            assert(os.take(i + 1).last() == os[i as int]);
        }
        match outcome {
            PairOutcome::Pending(p) => {
                pending.push(p);
                assert(pending@.map_values(|p: PreflightPair| p@) =~= pending_of(os.take(i + 1)));
            },
            PairOutcome::Completed(c) => {
                completed.push(c);
                assert(completed@.map_values(|c: CompletedPair| c@) =~= completed_of(os.take(i + 1)));
            },
            PairOutcome::Blocked(e) => {
                let ghost pe = errors@;
                let ghost ev = e@;
                errors.push(e);
                assert(error_views(errors@) =~= error_views(pe).push(ev));
                assert(outcome@ == StemOutcome::Blocked(ev));
                assert(error_views(errors@) =~= before + blocked_of(os.take(i + 1)));
            },
        }
        i = i + 1;
    }
    proof {
        assert(os.take(os.len() as int) =~= os);
    }
    let license_names = sorted_unique(names_vec);
    PreflightResult { folder, pending, completed, errors, license_names }
}

} // verus!

verus! {

proof fn lemma_pending_source(os: Seq<StemOutcome>, k: int)
    requires
        0 <= k < pending_of(os).len(),
    ensures
        exists|i: int| 0 <= i < os.len() && os[i] == StemOutcome::Pending(#[trigger] pending_of(os)[k]),
    decreases os.len(),
{
    let rest = pending_of(os.drop_last());
    match os.last() {
        StemOutcome::Pending(p) => {
            if k < rest.len() {
                lemma_pending_source(os.drop_last(), k);
                let i = choose|i: int|
                    0 <= i < os.drop_last().len() && os.drop_last()[i] == StemOutcome::Pending(
                        #[trigger] rest[k],
                    );
                assert(os[i] == os.drop_last()[i]);
            } else {
                assert(os[os.len() - 1] == StemOutcome::Pending(pending_of(os)[k]));
            }
        },
        _ => {
            lemma_pending_source(os.drop_last(), k);
            let i = choose|i: int|
                0 <= i < os.drop_last().len() && os.drop_last()[i] == StemOutcome::Pending(
                    #[trigger] rest[k],
                );
            assert(os[i] == os.drop_last()[i]);
        },
    }
}

/// Every pair the pre-flight lists as ready comes from one stem of the
/// folder that has a sidecar and an image and no done marker, whose sidecar
/// parsed to exactly the listed metadata, names that very image, and carries
/// either no license or one the server recognizes.
pub proof fn lemma_pending_pairs_are_ready(
    t: Seq<StemFilesView>,
    reads: Seq<Option<Result<Seq<char>, Seq<char>>>>,
    licenses: Seq<Seq<char>>,
    k: int,
)
    requires
        0 <= k < pending_of(outcomes(t, reads, licenses)).len(),
    ensures
        exists|i: int|
            0 <= i < t.len() && {
                let p = pending_of(outcomes(t, reads, licenses))[k];
                &&& t[i].stem == p.stem
                &&& t[i].done is None
                &&& t[i].sidecar == Some(p.sidecar_path)
                &&& (#[trigger] t[i]).image matches Some((name, path)) && path == p.image_path
                    && p.sidecar.filename == name
                &&& reads[i] matches Some(Ok(raw)) && sidecar_from_text(raw) == Ok::<
                    SidecarView,
                    Seq<char>,
                >(p.sidecar)
                &&& p.sidecar.license_name is Some ==> license_known(
                    p.sidecar.license_name->0,
                    licenses,
                )
            },
{
    let os = outcomes(t, reads, licenses);
    lemma_pending_source(os, k);
    let i = choose|i: int| 0 <= i < os.len() && os[i] == StemOutcome::Pending(#[trigger] pending_of(os)[k]);
    assert(os[i] == stem_outcome(t[i], reads[i], licenses));
}

/// Each stem ends up in exactly one place: ready, already committed, or
/// reported as an error.
pub proof fn lemma_every_stem_accounted(os: Seq<StemOutcome>)
    ensures
        pending_of(os).len() + completed_of(os).len() + blocked_of(os).len() == os.len(),
    decreases os.len(),
{
    if os.len() > 0 {
        lemma_every_stem_accounted(os.drop_last());
    }
}

} // verus!

verus! {

/// The message for a file whose (lower-cased) extension `x` is not an
/// image's.
pub open spec fn unrecognized_ext_msg(x: Seq<char>) -> Seq<char> {
    "unrecognized file extension `."@ + x + "` (allowed: jpg, jpeg, tif, tiff, png, webp)"@
}

/// The import pairs images by name: for a six-digit stem `s` and an
/// extension `e` (ASCII, without a dot, other than the sidecar's `json`),
/// the file `s.e` is the image of stem `s` exactly when `e`, in any case, is
/// `jpg`, `jpeg`, `tif`, `tiff`, `png` or `webp`; any other extension is
/// rejected, naming it in lower case.
pub proof fn lemma_import_image_names(s: Seq<char>, e: Seq<char>)
    requires
        six_digits(s),
        is_ascii_text(e),
        forall|i: int| 0 <= i < e.len() ==> e[i] != '.',
        e != "json"@,
    ensures
        classify(s + "."@ + e) == (if {
            let x = ascii_lowered(e);
            x == "jpg"@ || x == "jpeg"@ || x == "tif"@ || x == "tiff"@ || x == "png"@ || x == "webp"@
        } {
            NameKind::Image(s)
        } else {
            NameKind::Rejected(unrecognized_ext_msg(ascii_lowered(e)))
        }),
{
    reveal(classify);
    reveal_strlit(".");
    reveal_strlit(".json");
    reveal_strlit(".json.done");
    reveal_strlit("json");
    let name = s + "."@ + e;
    assert(name.len() == 7 + e.len());
    assert(forall|i: int| 0 <= i < e.len() ==> #[trigger] name[7 + i] == e[i]);
    assert(forall|i: int| 0 <= i < 6 ==> #[trigger] name[i] == s[i]);
    assert(name[6] == '.');
    assert(!ends_with(name, ".json"@)) by {
        if ends_with(name, ".json"@) {
            let tail = name.subrange(name.len() - 5, name.len() as int);
            assert(tail[0] == name[name.len() - 5]);
            if e.len() > 4 {
                assert(name[name.len() - 5] == e[e.len() - 5]);
            } else if e.len() < 4 {
                assert(is_digit(s[(name.len() - 5) as int]));
            } else {
                assert(name.subrange(7, name.len() as int) =~= e);
                assert(tail.subrange(1, 5) =~= e);
                assert(".json"@.subrange(1, 5) =~= "json"@);
            }
        }
    }
    assert(!ends_with(name, ".json.done"@)) by {
        if ends_with(name, ".json.done"@) {
            let tail = name.subrange(name.len() - 10, name.len() as int);
            assert(tail[5] == name[name.len() - 5]);
            assert(tail[0] == name[name.len() - 10]);
            if e.len() > 4 {
                assert(name[name.len() - 5] == e[e.len() - 5]);
            } else if e.len() < 4 {
                assert(is_digit(s[(name.len() - 5) as int]));
            } else {
                assert(is_digit(s[1]));
            }
        }
    }
    assert(has_dot(name));
    let dot = last_dot(name);
    assert(dot == 6) by {
        if dot < 6 {
            assert(name[dot] == s[dot]);
            assert(is_digit(s[dot]));
        } else if dot > 6 {
            assert(name[dot] == e[dot - 7]);
        }
    }
    assert(name.subrange(0, 6) =~= s);
    assert(name.subrange(7, name.len() as int) =~= e);
}

} // verus!
