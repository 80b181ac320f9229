//! Authoring an import folder: from a folder of arbitrary images to a
//! contiguous `000001..` series, each image with a sidecar in exactly the
//! schema that `sidecar::parse_sidecar` accepts.
use vstd::prelude::*;

use crate::hashcache::digits_value;
use crate::json::{json_parse, member, JsonValue};
use crate::preflight::{
    blocked_of, classify, completed_of, duplicate_msg, ends_with, entry_error, entry_errors, error_views,
    expected_stem, fetch_errors, fetched_names, first_gap_from, has_dot, is_preflight_of, is_scan_of,
    license_known, numbering_errors, outcomes, pending_of, six_digits, stem_outcome, stems_of,
    stray_errors, table_view, CompletedPair, FolderEntry, FolderScan, NameKind, PreflightPair,
    PreflightPairView, PreflightResult, StemFilesView, StemOutcome,
};
use crate::paths::{
    file_name, file_name_of, join, join_path, lower_extension, lower_extension_of, opt_seq, path_extension,
};
use crate::sidecar::{
    has_unknown_key, is_mirror, is_rotation, is_sidecar_field, sidecar_from_json, string_items,
    subjects_of, SidecarView,
};
use crate::text::{
    ascii_lowered, blank, decimal, digit_char, is_ascii_text, is_blank, is_digit, lowercase, padded_decimal, push_str,
    signed_decimal, signed_decimal_string, str_eq, to_string, zero_pad,
};

verus! {

/// The extensions the import accepts, and so the only ones offered here.
pub open spec fn is_prepare_ext(e: Seq<char>) -> bool {
    ||| e == "jpg"@
    ||| e == "jpeg"@
    ||| e == "tif"@
    ||| e == "tiff"@
    ||| e == "png"@
    ||| e == "webp"@
}

/// Whether `e` is one of the accepted extensions.
pub fn prepare_ext(e: &str) -> (res: bool)
    ensures
        res == is_prepare_ext(e@),
{
    str_eq(e, "jpg") || str_eq(e, "jpeg") || str_eq(e, "tif") || str_eq(e, "tiff") || str_eq(
        e,
        "png",
    ) || str_eq(e, "webp")
}

/// Whether a file at `path` is offered for preparation: its extension,
/// lower-cased, is an accepted one.
pub open spec fn is_prepare_path(path: Seq<char>) -> bool {
    match lower_extension(path) {
        Some(e) => is_prepare_ext(e),
        None => false,
    }
}

/// Whether the file at `path` is listed by a scan.
pub fn is_prepare_file(path: &str) -> (res: bool)
    ensures
        res == is_prepare_path(path@),
{
    match lower_extension_of(path) {
        Some(e) => prepare_ext(e.as_str()),
        None => false,
    }
}

/// The message for a scan of something that is not a folder.
pub fn missing_folder_message(folder: &str) -> (res: String)
    ensures
        res@ == "Folder does not exist or is not a directory: "@ + folder@,
{
    let mut m = to_string("Folder does not exist or is not a directory: ");
    push_str(&mut m, folder);
    m
}

/// One image of a scanned folder.
#[derive(Debug)]
pub struct PrepareImage {
    /// Path of the original file; also the row's key.
    pub source_path: String,
    /// The file's name as shown to the user.
    pub filename: String,
    /// The lower-cased extension, without the dot.
    pub ext: String,
    /// The rendered preview, when the image could be decoded.
    pub preview_path: Option<String>,
    pub size: u64,
    /// Why the image could not be decoded; the row stays listed.
    pub error: Option<String>,
}

/// A scanned folder and its images, in display order.
#[derive(Debug)]
pub struct PrepareScanResult {
    pub folder: String,
    pub images: Vec<PrepareImage>,
}

/// The view of a present or absent string, with absent read as empty.
pub open spec fn or_empty(o: Option<Seq<char>>) -> Seq<char> {
    match o {
        Some(s) => s,
        None => Seq::empty(),
    }
}

/// The row for the file at `source_path`, of `size` bytes, whose preview
/// rendering gave `preview`.
pub fn prepare_image(source_path: &str, size: u64, preview: Result<String, String>) -> (res:
    PrepareImage)
    ensures
        res.source_path@ == source_path@,
        res.filename@ == or_empty(file_name(source_path@)),
        res.ext@ == or_empty(lower_extension(source_path@)),
        res.size == size,
        match preview {
            Ok(p) => opt_seq(res.preview_path) == Some(p@) && res.error is None,
            Err(e) => res.preview_path is None && opt_seq(res.error) == Some(e@),
        },
{
    let filename = match file_name_of(source_path) {
        Some(n) => n,
        None => String::new(),
    };
    let ext = match lower_extension_of(source_path) {
        Some(e) => e,
        None => String::new(),
    };
    let (preview_path, error) = match preview {
        Ok(p) => (Some(p), None),
        Err(e) => (None, Some(e)),
    };
    PrepareImage { source_path: to_string(source_path), filename, ext, preview_path, size, error }
}

/// The metadata the user filled in for one image. Optional fields are
/// strings that may be blank.
#[derive(Debug)]
pub struct SaveSidecar {
    pub title: String,
    pub original_date: String,
    pub edtf_date: String,
    pub source_url: String,
    pub description: String,
    pub creator: String,
    pub reference_id: String,
    pub license_name: String,
    pub rotation: i64,
    pub mirror: String,
}

/// One enabled image to save, in output order.
#[derive(Debug)]
pub struct SaveItem {
    pub source_path: String,
    pub sidecar: SaveSidecar,
}

/// Where a save went and how many images it wrote.
#[derive(Debug)]
pub struct SaveResult {
    pub dest: String,
    pub written: u32,
}

/// Whether `sc` would pass the import's checks: the first failing rule's
/// message, or success.
pub open spec fn sidecar_check(sc: SaveSidecar) -> Result<(), Seq<char>> {
    if is_blank(sc.title@) {
        Err("title is required"@)
    } else if is_blank(sc.original_date@) {
        Err("original_date is required"@)
    } else if is_blank(sc.edtf_date@) {
        Err("edtf_date is required"@)
    } else if !is_rotation(sc.rotation) {
        Err("rotation must be 0, 90, 180, or 270 (got "@ + signed_decimal(sc.rotation as int) + ")"@)
    } else if !is_mirror(sc.mirror@) {
        Err("mirror must be \"none\", \"h\", or \"v\" (got \""@ + sc.mirror@ + "\")"@)
    } else {
        Ok(())
    }
}

fn mirror_ok(m: &str) -> (res: bool)
    ensures
        res == is_mirror(m@),
{
    str_eq(m, "none") || str_eq(m, "h") || str_eq(m, "v")
}

/// Checks the metadata of one image before anything is written.
pub fn validate_sidecar(sc: &SaveSidecar) -> (res: Result<(), String>)
    ensures
        match (res, sidecar_check(*sc)) {
            (Ok(_), Ok(_)) => true,
            (Err(a), Err(b)) => a@ == b,
            _ => false,
        },
{
    if blank(sc.title.as_str()) {
        return Err(to_string("title is required"));
    }
    if blank(sc.original_date.as_str()) {
        return Err(to_string("original_date is required"));
    }
    if blank(sc.edtf_date.as_str()) {
        return Err(to_string("edtf_date is required"));
    }
    if !(sc.rotation == 0 || sc.rotation == 90 || sc.rotation == 180 || sc.rotation == 270) {
        let mut m = to_string("rotation must be 0, 90, 180, or 270 (got ");
        let n = signed_decimal_string(sc.rotation);
        push_str(&mut m, n.as_str());
        push_str(&mut m, ")");
        return Err(m);
    }
    if !mirror_ok(sc.mirror.as_str()) {
        let mut m = to_string("mirror must be \"none\", \"h\", or \"v\" (got \"");
        push_str(&mut m, sc.mirror.as_str());
        push_str(&mut m, "\")");
        return Err(m);
    }
    Ok(())
}

/// `v` is the string `s`.
pub open spec fn is_str(v: JsonValue, s: Seq<char>) -> bool {
    v matches JsonValue::Str(x) && x@ == s
}

/// `v` is what an optional field holds for `s`: `null` when `s` is blank,
/// else the string itself.
pub open spec fn is_optional(v: JsonValue, s: Seq<char>) -> bool {
    if is_blank(s) {
        v is Null
    } else {
        is_str(v, s)
    }
}

/// An optional field: `null` for a blank string, else the string.
pub fn opt(s: &str) -> (res: JsonValue)
    ensures
        is_optional(res, s@),
{
    if blank(s) {
        JsonValue::Null
    } else {
        JsonValue::Str(to_string(s))
    }
}

/// `m` holds `key` at `i`, bound to `v`.
pub open spec fn entry_is(m: Seq<(String, JsonValue)>, i: int, key: Seq<char>) -> bool {
    m[i].0@ == key
}

/// `v` is the sidecar written for the image `filename` with metadata `sc`,
/// its keys listed in sorted order as serde_json's map lists them.
pub open spec fn is_sidecar_json(v: JsonValue, filename: Seq<char>, sc: SaveSidecar) -> bool {
    match v {
        JsonValue::Object(m) => {
            let m = m@;
            &&& m.len() == 12
            &&& entry_is(m, 0, "creator"@) && is_optional(m[0].1, sc.creator@)
            &&& entry_is(m, 1, "description"@) && is_optional(m[1].1, sc.description@)
            &&& entry_is(m, 2, "edtf_date"@) && is_str(m[2].1, sc.edtf_date@)
            &&& entry_is(m, 3, "filename"@) && is_str(m[3].1, filename)
            &&& entry_is(m, 4, "license_name"@) && is_optional(m[4].1, sc.license_name@)
            &&& entry_is(m, 5, "mirror"@) && is_str(m[5].1, sc.mirror@)
            &&& entry_is(m, 6, "original_date"@) && is_str(m[6].1, sc.original_date@)
            &&& entry_is(m, 7, "reference_id"@) && is_optional(m[7].1, sc.reference_id@)
            &&& entry_is(m, 8, "rotation"@) && m[8].1 == JsonValue::Number(Some(sc.rotation))
            &&& entry_is(m, 9, "source_url"@) && is_optional(m[9].1, sc.source_url@)
            &&& entry_is(m, 10, "subjects"@) && (m[10].1 matches JsonValue::Array(a) && a@.len()
                == 0)
            &&& entry_is(m, 11, "title"@) && is_str(m[11].1, sc.title@)
        },
        _ => false,
    }
}

fn entry(key: &str, v: JsonValue) -> (res: (String, JsonValue))
    ensures
        res.0@ == key@,
        res.1 == v,
{
    (to_string(key), v)
}

/// The sidecar JSON for the image `filename` with metadata `sc`.
pub fn build_sidecar_json(filename: &str, sc: &SaveSidecar) -> (res: JsonValue)
    ensures
        is_sidecar_json(res, filename@, *sc),
{
    let mut m: Vec<(String, JsonValue)> = Vec::new();
    m.push(entry("creator", opt(sc.creator.as_str())));
    m.push(entry("description", opt(sc.description.as_str())));
    m.push(entry("edtf_date", JsonValue::Str(to_string(sc.edtf_date.as_str()))));
    m.push(entry("filename", JsonValue::Str(to_string(filename))));
    m.push(entry("license_name", opt(sc.license_name.as_str())));
    m.push(entry("mirror", JsonValue::Str(to_string(sc.mirror.as_str()))));
    m.push(entry("original_date", JsonValue::Str(to_string(sc.original_date.as_str()))));
    m.push(entry("reference_id", opt(sc.reference_id.as_str())));
    m.push(entry("rotation", JsonValue::Number(Some(sc.rotation))));
    m.push(entry("source_url", opt(sc.source_url.as_str())));
    m.push(entry("subjects", JsonValue::Array(Vec::new())));
    m.push(entry("title", JsonValue::Str(to_string(sc.title.as_str()))));
    JsonValue::Object(m)
}

/// What an optional field reads back as.
pub open spec fn optional_view(s: Seq<char>) -> Option<Seq<char>> {
    if is_blank(s) {
        None
    } else {
        Some(s)
    }
}

/// The sidecar that the import reads from what was saved for `filename`
/// with metadata `sc`.
pub open spec fn saved_view(filename: Seq<char>, sc: SaveSidecar) -> SidecarView {
    SidecarView {
        filename,
        title: sc.title@,
        original_date: sc.original_date@,
        edtf_date: sc.edtf_date@,
        source_url: optional_view(sc.source_url@),
        description: optional_view(sc.description@),
        creator: optional_view(sc.creator@),
        reference_id: optional_view(sc.reference_id@),
        license_name: optional_view(sc.license_name@),
        rotation: sc.rotation,
        mirror: sc.mirror@,
        subjects: Seq::empty(),
    }
}

proof fn lemma_member_at(m: Seq<(String, JsonValue)>, i: int, key: Seq<char>)
    requires
        0 <= i < m.len(),
        m[i].0@ == key,
        forall|j: int| 0 <= j < i ==> m[j].0@ != key,
    ensures
        member(m, key) == Some(m[i].1),
    decreases i,
{
    if i > 0 {
        lemma_member_at(m.drop_first(), i - 1, key);
    }
}

/// A saved sidecar passes the import: whatever `build_sidecar_json` writes
/// for an image whose metadata `validate_sidecar` accepts, under a
/// non-empty file name, the import's sidecar parse reads back as exactly
/// that metadata, with blank optional fields as absent and no subjects.
pub proof fn lemma_saved_sidecar_parses(v: JsonValue, filename: Seq<char>, sc: SaveSidecar)
    requires
        is_sidecar_json(v, filename, sc),
        sidecar_check(sc) is Ok,
        filename.len() > 0,
    ensures
        sidecar_from_json(v) == Ok::<SidecarView, Seq<char>>(saved_view(filename, sc)),
{
    reveal_strlit("creator");
    reveal_strlit("description");
    reveal_strlit("edtf_date");
    reveal_strlit("filename");
    reveal_strlit("license_name");
    reveal_strlit("mirror");
    reveal_strlit("original_date");
    reveal_strlit("reference_id");
    reveal_strlit("rotation");
    reveal_strlit("source_url");
    reveal_strlit("subjects");
    reveal_strlit("title");
    let m = v->Object_0@;
    let keys: Seq<Seq<char>> = seq![
        "creator"@,
        "description"@,
        "edtf_date"@,
        "filename"@,
        "license_name"@,
        "mirror"@,
        "original_date"@,
        "reference_id"@,
        "rotation"@,
        "source_url"@,
        "subjects"@,
        "title"@,
    ];
    assert forall|i: int| 0 <= i < 12 implies #[trigger] m[i].0@ == keys[i] by {}
    assert forall|i: int, j: int| 0 <= j < i < 12 implies keys[j] != keys[i] by {
        assert(keys[j][0] != keys[i][0] || keys[j].len() != keys[i].len() || keys[j][1]
            != keys[i][1]);
    }
    assert forall|i: int| 0 <= i < 12 implies member(m, keys[i]) == Some(m[i].1) by {
        lemma_member_at(m, i, keys[i]);
    }
    assert(!has_unknown_key(m)) by {
        assert forall|i: int| 0 <= i < m.len() implies is_sidecar_field(#[trigger] m[i].0@) by {
            assert(m[i].0@ == keys[i]);
        }
    }
    assert(member(m, "creator"@) == Some(m[0].1));
    assert(member(m, "description"@) == Some(m[1].1));
    assert(member(m, "edtf_date"@) == Some(m[2].1));
    assert(member(m, "filename"@) == Some(m[3].1));
    assert(member(m, "license_name"@) == Some(m[4].1));
    assert(member(m, "mirror"@) == Some(m[5].1));
    assert(member(m, "original_date"@) == Some(m[6].1));
    assert(member(m, "reference_id"@) == Some(m[7].1));
    assert(member(m, "rotation"@) == Some(m[8].1));
    assert(member(m, "source_url"@) == Some(m[9].1));
    assert(member(m, "subjects"@) == Some(m[10].1));
    assert(member(m, "title"@) == Some(m[11].1));
    assert(sc.title@.len() > 0);
    assert(sc.original_date@.len() > 0);
    assert(sc.edtf_date@.len() > 0);
    let a = m[10].1->Array_0;
    assert(string_items(a@) =~= Seq::<Seq<char>>::empty());
    assert(subjects_of(m) == Ok::<Seq<Seq<char>>, Seq<char>>(Seq::empty()));
}

/// How a save may proceed into its destination.
#[derive(Debug)]
pub enum Destination {
    /// The folder exists; it must be listed and found empty.
    MustBeEmpty,
    /// Nothing is there yet; the folder is created.
    Create,
}

/// The checks made before anything is written: something to save, and a
/// destination that is a folder if it exists.
pub fn check_save_request(item_count: usize, dest_exists: bool, dest_is_dir: bool) -> (res: Result<
    Destination,
    String,
>)
    ensures
        item_count == 0 ==> res is Err && res->Err_0@ == "No enabled images to save."@,
        item_count > 0 && dest_exists && !dest_is_dir ==> res is Err && res->Err_0@
            == "Destination exists but is not a folder."@,
        item_count > 0 && dest_exists && dest_is_dir ==> res == Ok::<Destination, String>(
            Destination::MustBeEmpty,
        ),
        item_count > 0 && !dest_exists ==> res == Ok::<Destination, String>(Destination::Create),
{
    if item_count == 0 {
        return Err(to_string("No enabled images to save."));
    }
    if dest_exists {
        if !dest_is_dir {
            return Err(to_string("Destination exists but is not a folder."));
        }
        Ok(Destination::MustBeEmpty)
    } else {
        Ok(Destination::Create)
    }
}

/// An existing destination must hold nothing.
pub fn check_destination_empty(has_entries: bool) -> (res: Result<(), String>)
    ensures
        has_entries ==> res is Err && res->Err_0@
            == "Destination folder is not empty. Choose an empty or new folder."@,
        !has_entries ==> res is Ok,
{
    if has_entries {
        Err(to_string("Destination folder is not empty. Choose an empty or new folder."))
    } else {
        Ok(())
    }
}

/// The files to write for one image, each first under a temporary name.
#[derive(Debug)]
pub struct SavePlan {
    pub image_name: String,
    pub image_path: String,
    pub tmp_image_path: String,
    pub sidecar_name: String,
    pub sidecar_path: String,
    pub tmp_sidecar_path: String,
    pub sidecar: JsonValue,
}

/// The stem of the image at position `index`: `000001` for the first.
pub open spec fn save_stem(index: nat) -> Seq<char> {
    zero_pad(decimal(index + 1), 6)
}

/// What a save makes of the image at position `index`: the first failing
/// check's message, or the names it is written under (the image's name and
/// the sidecar's name, relative to `dest`).
pub open spec fn save_names(index: nat, item: SaveItem) -> Result<(Seq<char>, Seq<char>), Seq<char>> {
    let src = item.source_path@;
    let stem = save_stem(index);
    match lower_extension(src) {
        None => Err(src + ": file has no extension"@),
        Some(e) => if !is_prepare_ext(e) {
            Err(src + ": unsupported extension `."@ + e + "`"@)
        } else {
            let label = match file_name(src) {
                Some(n) => n,
                None => src,
            };
            match sidecar_check(item.sidecar) {
                Err(m) => Err(stem + " ("@ + label + "): "@ + m),
                Ok(_) => Ok((stem + "."@ + e, stem + ".json"@)),
            }
        },
    }
}

/// Plans the writing of the image at position `index` into `dest`: checks it
/// and names its files (the final image and sidecar paths, and the `.tmp`
/// paths each is first written to), with the sidecar to write.
pub fn plan_save_item(dest: &str, index: usize, item: &SaveItem) -> (res: Result<SavePlan, String>)
    requires
        index < u64::MAX,
    ensures
        match (res, save_names(index as nat, *item)) {
            (Ok(p), Ok((image_name, sidecar_name))) => {
                &&& p.image_name@ == image_name
                &&& p.image_path@ == join(dest@, image_name)
                &&& p.tmp_image_path@ == join(dest@, image_name + ".tmp"@)
                &&& p.sidecar_name@ == sidecar_name
                &&& p.sidecar_path@ == join(dest@, sidecar_name)
                &&& p.tmp_sidecar_path@ == join(dest@, sidecar_name + ".tmp"@)
                &&& is_sidecar_json(p.sidecar, image_name, item.sidecar)
            },
            (Err(a), Err(b)) => a@ == b,
            _ => false,
        },
{
    let src = item.source_path.as_str();
    let stem = padded_decimal((index as u64) + 1, 6);
    let ext = match lower_extension_of(src) {
        None => {
            let mut m = to_string(src);
            push_str(&mut m, ": file has no extension");
            return Err(m);
        },
        Some(e) => e,
    };
    if !prepare_ext(ext.as_str()) {
        let mut m = to_string(src);
        push_str(&mut m, ": unsupported extension `.");
        push_str(&mut m, ext.as_str());
        push_str(&mut m, "`");
        return Err(m);
    }
    let label = match file_name_of(src) {
        Some(n) => n,
        None => to_string(src),
    };
    match validate_sidecar(&item.sidecar) {
        Err(e) => {
            let mut m = to_string(stem.as_str());
            push_str(&mut m, " (");
            push_str(&mut m, label.as_str());
            push_str(&mut m, "): ");
            push_str(&mut m, e.as_str());
            Err(m)
        },
        Ok(()) => {
            let mut image_name = to_string(stem.as_str());
            push_str(&mut image_name, ".");
            push_str(&mut image_name, ext.as_str());
            let mut tmp_image = to_string(image_name.as_str());
            push_str(&mut tmp_image, ".tmp");
            let mut sidecar_name = to_string(stem.as_str());
            push_str(&mut sidecar_name, ".json");
            let mut tmp_sidecar = to_string(sidecar_name.as_str());
            push_str(&mut tmp_sidecar, ".tmp");
            let sidecar = build_sidecar_json(image_name.as_str(), &item.sidecar);
            Ok(
                SavePlan {
                    image_path: join_path(dest, image_name.as_str()),
                    tmp_image_path: join_path(dest, tmp_image.as_str()),
                    sidecar_path: join_path(dest, sidecar_name.as_str()),
                    tmp_sidecar_path: join_path(dest, tmp_sidecar.as_str()),
                    image_name,
                    sidecar_name,
                    sidecar,
                },
            )
        },
    }
}

} // verus!

verus! {

/// Ten to the `k`.
pub open spec fn pow10(k: nat) -> nat
    decreases k,
{
    if k == 0 {
        1
    } else {
        10 * pow10((k - 1) as nat)
    }
}

pub(crate) proof fn lemma_decimal_shape(n: nat, k: nat)
    requires
        1 <= k,
        n < pow10(k),
    ensures
        decimal(n).len() <= k,
        forall|i: int| 0 <= i < decimal(n).len() ==> is_digit(#[trigger] decimal(n)[i]),
    decreases n,
{
    if n >= 10 {
        let p = pow10((k - 1) as nat);
        assert(k >= 2) by {
            if k == 1 {
                assert(pow10(1) == 10);
            }
        }
        assert(n / 10 < p) by (nonlinear_arith)
            requires
                n < 10 * p,
        ;
        lemma_decimal_shape(n / 10, (k - 1) as nat);
        let d = decimal(n / 10);
        assert(decimal(n) == d.push(digit_char(n % 10)));
        assert forall|i: int| 0 <= i < decimal(n).len() implies is_digit(#[trigger] decimal(n)[i]) by {
            if i < d.len() {
                assert(decimal(n)[i] == d[i]);
            }
        }
    }
}

proof fn lemma_digit_char_inverse(c: char)
    requires
        is_digit(c),
    ensures
        digit_char(((c as u32) - 48) as nat) == c,
{
    let d = ((c as u32) - 48) as nat;
    assert(d < 10);
    assert(('0' as u32) == 48);
    if d == 0 {
        assert(c == '0');
    } else if d == 1 {
        assert(c == '1');
    } else if d == 2 {
        assert(c == '2');
    } else if d == 3 {
        assert(c == '3');
    } else if d == 4 {
        assert(c == '4');
    } else if d == 5 {
        assert(c == '5');
    } else if d == 6 {
        assert(c == '6');
    } else if d == 7 {
        assert(c == '7');
    } else if d == 8 {
        assert(c == '8');
    } else {
        assert(c == '9');
    }
}

/// A run of digits is the padding, to its own length, of the number it
/// spells, and that number has fewer digits than ten to its length.
proof fn lemma_digits_padding(s: Seq<char>)
    requires
        s.len() >= 1,
        forall|i: int| 0 <= i < s.len() ==> is_digit(#[trigger] s[i]),
    ensures
        zero_pad(decimal(digits_value(s)), s.len()) == s,
        digits_value(s) < pow10(s.len()),
    decreases s.len(),
{
    let c = s.last();
    let d = ((c as u32) - 48) as nat;
    lemma_digit_char_inverse(c);
    if s.len() == 1 {
        assert(s.drop_last().len() == 0);
        assert(digits_value(s.drop_last()) == 0);
        assert(digits_value(s) == d);
        assert(decimal(d) == seq![c]);
        assert(seq![c] =~= s);
        assert(pow10(1) == 10) by {
            reveal_with_fuel(pow10, 2);
        }
    } else {
        let p = s.drop_last();
        let k = p.len();
        assert forall|i: int| 0 <= i < p.len() implies is_digit(#[trigger] p[i]) by {
            assert(p[i] == s[i]);
        }
        lemma_digits_padding(p);
        let vp = digits_value(p);
        let v = digits_value(s);
        assert(v == vp * 10 + d);
        assert(pow10(s.len()) == 10 * pow10(k));
        assert(v < pow10(s.len())) by (nonlinear_arith)
            requires
                v == vp * 10 + d,
                d < 10,
                vp < pow10(k),
                pow10(s.len()) == 10 * pow10(k),
        ;
        if vp == 0 {
            assert(v == d);
            assert(decimal(v) == seq![c]);
            assert(decimal(0) == seq!['0']);
            let zeros = Seq::new(k, |i: int| '0');
            assert(p == zeros) by {
                assert(zero_pad(seq!['0'], k) =~= zeros) by {
                    if k > 1 {
                        assert(zero_pad(seq!['0'], k) == Seq::new((k - 1) as nat, |i: int| '0') + seq!['0']);
                    }
                }
            }
            assert(zero_pad(seq![c], s.len()) =~= s) by {
                assert(zero_pad(seq![c], s.len()) == Seq::new(k, |i: int| '0') + seq![c]);
                assert(s == p.push(c));
            }
        } else {
            assert(v >= 10);
            assert(v / 10 == vp && v % 10 == d);
            let dp = decimal(vp);
            assert(decimal(v) == dp.push(digit_char(d)));
            assert(dp.len() <= k);
            assert(s == p.push(c));
            if dp.len() < k {
                let zeros = Seq::new((k - dp.len()) as nat, |i: int| '0');
                assert(p == zeros + dp);
                assert(zero_pad(dp.push(c), s.len()) == Seq::new((s.len() - dp.len() - 1) as nat, |i: int| '0')
                    + dp.push(c));
                assert(zero_pad(dp.push(c), s.len()) =~= (zeros + dp).push(c));
            } else {
                assert(p == dp);
                assert(zero_pad(dp.push(c), s.len()) == dp.push(c));
            }
        }
    }
}

/// The six-digit check agrees with zero-padding to six places: the padding
/// of every number below a million passes it; every text that passes it is
/// the padding of the number it spells, which is below a million; and the
/// padding of a million does not pass it.
pub proof fn lemma_six_digits_padding(n: nat, s: Seq<char>)
    ensures
        n < 1_000_000 ==> six_digits(zero_pad(decimal(n), 6)),
        six_digits(s) ==> digits_value(s) < 1_000_000 && s == zero_pad(decimal(digits_value(s)), 6),
        !six_digits(zero_pad(decimal(1_000_000), 6)),
{
    reveal_with_fuel(pow10, 7);
    if n < 1_000_000 {
        lemma_decimal_shape(n, 6);
        let d = decimal(n);
        let z = zero_pad(d, 6);
        if d.len() < 6 {
            let pad = Seq::new((6 - d.len()) as nat, |i: int| '0');
            assert(z == pad + d);
            assert forall|i: int| 0 <= i < 6 implies is_digit(#[trigger] z[i]) by {
                if i < pad.len() {
                    assert(z[i] == pad[i]);
                } else {
                    assert(z[i] == d[i - pad.len()]);
                }
            }
        }
    }
    if six_digits(s) {
        lemma_digits_padding(s);
    }
    reveal_with_fuel(decimal, 8);
    assert(decimal(1_000_000).len() == 7);
}

/// The images of a save are numbered as the import expects: the image at
/// position `index` (of fewer than a million) gets a stem of exactly six
/// ASCII digits, the decimal of `index + 1` zero-padded.
pub proof fn lemma_save_stem_six_digits(index: nat)
    requires
        index + 1 < 1_000_000,
    ensures
        save_stem(index).len() == 6,
        forall|i: int| 0 <= i < 6 ==> is_digit(#[trigger] save_stem(index)[i]),
{
    reveal_with_fuel(pow10, 7);
    lemma_decimal_shape(index + 1, 6);
    let s = decimal(index + 1);
    let z = save_stem(index);
    if s.len() < 6 {
        let pad = Seq::new((6 - s.len()) as nat, |i: int| '0');
        assert(z == pad + s);
        assert forall|i: int| 0 <= i < 6 implies is_digit(#[trigger] z[i]) by {
            if i < pad.len() {
                assert(z[i] == pad[i]);
            } else {
                assert(z[i] == s[i - pad.len()]);
            }
        }
    }
}

} // verus!

verus! {

/// A saved sidecar's name reads, to the import's pre-flight, as the
/// sidecar of its stem.
pub proof fn lemma_saved_sidecar_name_classifies(stem: Seq<char>)
    requires
        six_digits(stem),
    ensures
        classify(stem + ".json"@) == NameKind::Sidecar(stem),
{
    reveal(classify);
    reveal_strlit(".json");
    reveal_strlit(".json.done");
    let name = stem + ".json"@;
    assert(name.subrange(name.len() - 5, name.len() as int) =~= ".json"@);
    assert(!ends_with(name, ".json.done"@)) by {
        if ends_with(name, ".json.done"@) {
            assert(name.subrange(name.len() - 10, name.len() as int)[0] == name[1]);
            assert(is_digit(stem[1]));
        }
    }
    assert(name.subrange(0, name.len() - 5) =~= stem);
}

/// A saved image's name reads, to the import's pre-flight, as the image of
/// its stem.
pub proof fn lemma_saved_image_name_classifies(stem: Seq<char>, e: Seq<char>)
    requires
        six_digits(stem),
        is_prepare_ext(e),
    ensures
        classify(stem + "."@ + e) == NameKind::Image(stem),
{
    lemma_prepare_ext_is_lower(e);
    reveal(classify);
    reveal_strlit(".");
    reveal_strlit(".json");
    reveal_strlit(".json.done");
    reveal_strlit("jpg");
    reveal_strlit("jpeg");
    reveal_strlit("tif");
    reveal_strlit("tiff");
    reveal_strlit("png");
    reveal_strlit("webp");
    let name = stem + "."@ + e;
    assert(name.len() == 7 + e.len());
    assert(forall|i: int| 0 <= i < e.len() ==> e[i] != '.');
    assert(forall|i: int| 0 <= i < e.len() ==> #[trigger] name[7 + i] == e[i]);
    assert(name[6] == '.');
    assert(!ends_with(name, ".json"@)) by {
        if ends_with(name, ".json"@) {
            let tail = name.subrange(name.len() - 5, name.len() as int);
            assert(tail[1] == name[name.len() - 4]);
            assert(tail[4] == name[name.len() - 1]);
        }
    }
    assert(!ends_with(name, ".json.done"@)) by {
        if ends_with(name, ".json.done"@) {
            let tail = name.subrange(name.len() - 10, name.len() as int);
            assert(tail[9] == name[name.len() - 1]);
        }
    }
    assert(has_dot(name));
    let dot = crate::preflight::last_dot(name);
    assert(dot == 6) by {
        if dot < 6 {
            assert(name[dot] == stem[dot]);
            assert(is_digit(stem[dot]));
        } else if dot > 6 {
            assert(name[dot] == e[dot - 7]);
        }
    }
    assert(name.subrange(0, 6) =~= stem);
    assert(name.subrange(7, name.len() as int) =~= e);
}

/// A supported extension is its own lower-case form.
proof fn lemma_prepare_ext_is_lower(e: Seq<char>)
    requires
        is_prepare_ext(e),
    ensures
        lowercase(e) == e,
{
    reveal_strlit("jpg");
    reveal_strlit("jpeg");
    reveal_strlit("tif");
    reveal_strlit("tiff");
    reveal_strlit("png");
    reveal_strlit("webp");
    assert(is_ascii_text(e));
    assert(ascii_lowered(e) =~= e);
}

/// A saved pair passes the import's pair checks: a stem whose sidecar file
/// holds what `build_sidecar_json` wrote for its image (read back as that
/// JSON), with metadata `validate_sidecar` accepts and a license that is
/// blank or known to the server, is ready to import with exactly that
/// metadata.
pub proof fn lemma_saved_pair_is_ready(
    stem: Seq<char>,
    image_name: Seq<char>,
    sidecar_path: Seq<char>,
    image_path: Seq<char>,
    raw: Seq<char>,
    v: JsonValue,
    sc: SaveSidecar,
    licenses: Seq<Seq<char>>,
)
    requires
        image_name.len() > 0,
        json_parse(raw) == Ok::<JsonValue, Seq<char>>(v),
        is_sidecar_json(v, image_name, sc),
        sidecar_check(sc) is Ok,
        !is_blank(sc.license_name@) ==> license_known(sc.license_name@, licenses),
    ensures
        stem_outcome(
            StemFilesView {
                stem,
                sidecar: Some(sidecar_path),
                done: None,
                image: Some((image_name, image_path)),
                strays: Seq::empty(),
            },
            Some(Ok(raw)),
            licenses,
        ) == StemOutcome::Pending(
            PreflightPairView {
                stem,
                sidecar_path,
                image_path,
                sidecar: saved_view(image_name, sc),
            },
        ),
{
    lemma_saved_sidecar_parses(v, image_name, sc);
}

} // verus!

verus! {

/// The files a save leaves for the image at position `i`: its sidecar at
/// `sidecar_path`, and the image `image_name` at `image_path`.
pub open spec fn saved_files(i: nat, sidecar_path: Seq<char>, image_name: Seq<char>, image_path: Seq<char>) -> StemFilesView {
    StemFilesView {
        stem: save_stem(i),
        sidecar: Some(sidecar_path),
        done: None,
        image: Some((image_name, image_path)),
        strays: Seq::empty(),
    }
}

/// A readable file whose name is a sidecar's or an image's of some stem.
pub open spec fn saved_entry(e: FolderEntry) -> bool {
    match e {
        FolderEntry::File { name, path } => classify(name@) is Sidecar || classify(name@) is Image,
        FolderEntry::Unreadable(_) => false,
    }
}

proof fn lemma_no_entry_errors(es: Seq<FolderEntry>)
    requires
        forall|j: int| 0 <= j < es.len() ==> (#[trigger] entry_error(es[j])) is None,
    ensures
        entry_errors(es) == Seq::<(Seq<char>, Seq<char>)>::empty(),
    decreases es.len(),
{
    if es.len() > 0 {
        assert(entry_error(es[es.len() - 1]) is None);
        lemma_no_entry_errors(es.drop_last());
    }
}

proof fn lemma_no_strays(t: Seq<StemFilesView>)
    requires
        forall|i: int| 0 <= i < t.len() ==> (#[trigger] t[i]).strays.len() == 0,
    ensures
        stray_errors(t) == Seq::<(Seq<char>, Seq<char>)>::empty(),
    decreases t.len(),
{
    if t.len() > 0 {
        assert(t.last().strays.len() == 0);
        lemma_no_strays(t.drop_last());
        assert(t.last().strays.map_values(|n: Seq<char>| (n, duplicate_msg(t.last().stem))) =~= Seq::<
            (Seq<char>, Seq<char>),
        >::empty());
    }
}

proof fn lemma_no_gap(stems: Seq<Seq<char>>, i: int)
    requires
        0 <= i,
        forall|j: int| 0 <= j < stems.len() ==> #[trigger] stems[j] == expected_stem(j),
    ensures
        first_gap_from(stems, i) is None,
    decreases stems.len() - i,
{
    if i < stems.len() {
        lemma_no_gap(stems, i + 1);
    }
}

proof fn lemma_all_pending(os: Seq<StemOutcome>, ps: Seq<PreflightPairView>)
    requires
        os.len() == ps.len(),
        forall|i: int| 0 <= i < os.len() ==> #[trigger] os[i] == StemOutcome::Pending(ps[i]),
    ensures
        pending_of(os) == ps,
        completed_of(os).len() == 0,
        blocked_of(os).len() == 0,
    decreases os.len(),
{
    if os.len() > 0 {
        let n = os.len() - 1;
        assert(os[n] == StemOutcome::Pending(ps[n]));
        lemma_all_pending(os.drop_last(), ps.drop_last());
        assert(pending_of(os) =~= ps);
    }
}

/// A folder written by a save passes the import's pre-flight: where the
/// folder holds, for each of the `n` saved images (fewer than a million),
/// its image file and its sidecar under the stems `000001`, `000002`, ...,
/// each sidecar reading back as the JSON the save wrote for valid
/// metadata, and each license blank or known to the server, the pre-flight
/// reports no error and no committed pair, and lists every image as
/// pending, in order, under its stem and with exactly the saved metadata
/// (title included).
pub proof fn lemma_saved_folder_passes(
    res: PreflightResult,
    folder: Seq<char>,
    scan: FolderScan,
    es: Seq<FolderEntry>,
    fetched: Option<Result<Seq<Seq<char>>, Seq<char>>>,
    reads: Seq<Option<Result<Seq<char>, Seq<char>>>>,
    sidecar_paths: Seq<Seq<char>>,
    image_names: Seq<Seq<char>>,
    image_paths: Seq<Seq<char>>,
    raws: Seq<Seq<char>>,
    jsons: Seq<JsonValue>,
    sidecars: Seq<SaveSidecar>,
)
    requires
        is_scan_of(scan, es),
        is_preflight_of(res, folder, scan, fetched, reads),
        forall|j: int| 0 <= j < es.len() ==> #[trigger] saved_entry(es[j]),
        table_view(scan.stems@) == Seq::new(
            sidecars.len(),
            |i: int| saved_files(i as nat, sidecar_paths[i], image_names[i], image_paths[i]),
        ),
        sidecars.len() < 1_000_000,
        sidecar_paths.len() == sidecars.len(),
        image_names.len() == sidecars.len(),
        image_paths.len() == sidecars.len(),
        raws.len() == sidecars.len(),
        jsons.len() == sidecars.len(),
        reads.len() == sidecars.len(),
        !(fetched is Some && fetched->0 is Err),
        forall|i: int|
            0 <= i < sidecars.len() ==> {
                &&& image_names[i].len() > 0
                &&& reads[i] == Some(Ok::<Seq<char>, Seq<char>>(raws[i]))
                &&& json_parse(raws[i]) == Ok::<JsonValue, Seq<char>>(jsons[i])
                &&& is_sidecar_json(jsons[i], image_names[i], sidecars[i])
                &&& sidecar_check(#[trigger] sidecars[i]) is Ok
                &&& !is_blank(sidecars[i].license_name@) ==> license_known(
                    sidecars[i].license_name@,
                    fetched_names(fetched),
                )
            },
    ensures
        res.errors@.len() == 0,
        res.completed@.len() == 0,
        res.pending@.len() == sidecars.len(),
        forall|i: int|
            0 <= i < sidecars.len() ==> #[trigger] res.pending@[i]@ == (PreflightPairView {
                stem: save_stem(i as nat),
                sidecar_path: sidecar_paths[i],
                image_path: image_paths[i],
                sidecar: saved_view(image_names[i], sidecars[i]),
            }),
{
    let n = sidecars.len();
    let t = table_view(scan.stems@);
    let licenses = fetched_names(fetched);
    let os = outcomes(t, reads, licenses);
    let ps = Seq::new(
        n,
        |i: int|
            PreflightPairView {
                stem: save_stem(i as nat),
                sidecar_path: sidecar_paths[i],
                image_path: image_paths[i],
                sidecar: saved_view(image_names[i], sidecars[i]),
            },
    );
    assert forall|j: int| 0 <= j < es.len() implies (#[trigger] entry_error(es[j])) is None by {
        assert(saved_entry(es[j]));
    }
    lemma_no_entry_errors(es);
    assert forall|i: int| 0 <= i < t.len() implies (#[trigger] t[i]).strays.len() == 0 by {
        assert(t[i] == saved_files(i as nat, sidecar_paths[i], image_names[i], image_paths[i]));
    }
    lemma_no_strays(t);
    let stems = stems_of(t);
    assert forall|j: int| 0 <= j < stems.len() implies #[trigger] stems[j] == expected_stem(j) by {
        assert(t[j] == saved_files(j as nat, sidecar_paths[j], image_names[j], image_paths[j]));
    }
    lemma_no_gap(stems, 0);
    assert(numbering_errors(stems) =~= Seq::<(Seq<char>, Seq<char>)>::empty());
    assert forall|i: int| 0 <= i < os.len() implies #[trigger] os[i] == StemOutcome::Pending(ps[i]) by {
        assert(t[i] == saved_files(i as nat, sidecar_paths[i], image_names[i], image_paths[i]));
        assert(sidecar_check(sidecars[i]) is Ok);
        lemma_saved_pair_is_ready(
            save_stem(i as nat),
            image_names[i],
            sidecar_paths[i],
            image_paths[i],
            raws[i],
            jsons[i],
            sidecars[i],
            licenses,
        );
    }
    lemma_all_pending(os, ps);
    assert(fetch_errors(fetched) =~= Seq::<(Seq<char>, Seq<char>)>::empty());
    assert(error_views(scan.errors@) =~= Seq::<(Seq<char>, Seq<char>)>::empty());
    assert(error_views(res.errors@).len() == 0);
    assert(res.pending@.map_values(|p: PreflightPair| p@) == ps);
    assert(res.pending@.map_values(|p: PreflightPair| p@).len() == res.pending@.len());
    assert(res.pending@.len() == n);
    assert(res.completed@.map_values(|c: CompletedPair| c@).len() == 0);
    assert forall|i: int| 0 <= i < n implies #[trigger] res.pending@[i]@ == ps[i] by {
        assert(res.pending@.map_values(|p: PreflightPair| p@)[i] == res.pending@[i]@);
    }
}

} // verus!

verus! {

/// The images a save offers and accepts are exactly the files whose
/// extension, in any ASCII case, is `jpg`, `jpeg`, `tif`, `tiff`, `png` or
/// `webp`; a file without an extension is not one.
pub proof fn lemma_prepare_extensions(path: Seq<char>, e: Seq<char>)
    ensures
        path_extension(path) is None ==> !is_prepare_path(path),
        path_extension(path) == Some(e) && is_ascii_text(e) ==> (is_prepare_path(path) <==> {
            let x = ascii_lowered(e);
            x == "jpg"@ || x == "jpeg"@ || x == "tif"@ || x == "tiff"@ || x == "png"@ || x == "webp"@
        }),
{
}

/// A save writes an accepted image under its six-digit stem with the
/// source's extension in lower case, and refuses any other extension by
/// name: for a source whose extension `e` is ASCII and metadata that passes
/// the checks, the names are `NNNNNN.x` and `NNNNNN.json` when `x`, the
/// lower-cased `e`, is `jpg`, `jpeg`, `tif`, `tiff`, `png` or `webp`.
pub proof fn lemma_save_keeps_extension(index: nat, item: SaveItem, e: Seq<char>)
    requires
        path_extension(item.source_path@) == Some(e),
        is_ascii_text(e),
        sidecar_check(item.sidecar) is Ok,
    ensures
        ({
            let x = ascii_lowered(e);
            x == "jpg"@ || x == "jpeg"@ || x == "tif"@ || x == "tiff"@ || x == "png"@ || x == "webp"@
        }) ==> save_names(index, item) == Ok::<(Seq<char>, Seq<char>), Seq<char>>(
            (save_stem(index) + "."@ + ascii_lowered(e), save_stem(index) + ".json"@),
        ),
        !({
            let x = ascii_lowered(e);
            x == "jpg"@ || x == "jpeg"@ || x == "tif"@ || x == "tiff"@ || x == "png"@ || x == "webp"@
        }) ==> save_names(index, item) == Err::<(Seq<char>, Seq<char>), Seq<char>>(
            item.source_path@ + ": unsupported extension `."@ + ascii_lowered(e) + "`"@,
        ),
{
}

} // verus!
