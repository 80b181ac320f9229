//! The sidecar schema: the JSON file that describes one image of an import
//! folder, and the parse that accepts exactly that schema.
use vstd::prelude::*;

use crate::json::{get_member, json_parse, member, parse_json, JsonValue};
use crate::text::{
    cat2, cat3, lemma_seq_lt_irreflexive, lemma_seq_lt_total, lemma_seq_lt_transitive, seq_lt,
    signed_decimal, signed_decimal_string, str_eq, str_lt, to_string,
};

verus! {

/// Parsed, validated sidecar — the canonical form the dispatcher works with.
#[derive(Debug)]
pub struct Sidecar {
    pub filename: String,
    pub title: String,
    pub original_date: String,
    pub edtf_date: String,
    pub source_url: Option<String>,
    pub description: Option<String>,
    pub creator: Option<String>,
    pub reference_id: Option<String>,
    pub license_name: Option<String>,
    pub rotation: i64,
    pub mirror: String,
    /// Subject slugs to tag, in order. Absent in the sidecar means none.
    pub subjects: Vec<String>,
}

/// A sidecar with its strings taken as character sequences.
pub struct SidecarView {
    pub filename: Seq<char>,
    pub title: Seq<char>,
    pub original_date: Seq<char>,
    pub edtf_date: Seq<char>,
    pub source_url: Option<Seq<char>>,
    pub description: Option<Seq<char>>,
    pub creator: Option<Seq<char>>,
    pub reference_id: Option<Seq<char>>,
    pub license_name: Option<Seq<char>>,
    pub rotation: i64,
    pub mirror: Seq<char>,
    pub subjects: Seq<Seq<char>>,
}

/// The view of an optional string.
pub open spec fn opt_view(o: Option<String>) -> Option<Seq<char>> {
    match o {
        Some(s) => Some(s@),
        None => None,
    }
}

/// The views of a sequence of strings.
pub open spec fn views(v: Seq<String>) -> Seq<Seq<char>> {
    v.map_values(|s: String| s@)
}

impl View for Sidecar {
    type V = SidecarView;

    open spec fn view(&self) -> SidecarView {
        SidecarView {
            filename: self.filename@,
            title: self.title@,
            original_date: self.original_date@,
            edtf_date: self.edtf_date@,
            source_url: opt_view(self.source_url),
            description: opt_view(self.description),
            creator: opt_view(self.creator),
            reference_id: opt_view(self.reference_id),
            license_name: opt_view(self.license_name),
            rotation: self.rotation,
            mirror: self.mirror@,
            subjects: views(self.subjects@),
        }
    }
}

/// The keys a sidecar may hold.
pub open spec fn is_sidecar_field(k: Seq<char>) -> bool {
    ||| k == "filename"@
    ||| k == "title"@
    ||| k == "original_date"@
    ||| k == "edtf_date"@
    ||| k == "source_url"@
    ||| k == "description"@
    ||| k == "creator"@
    ||| k == "reference_id"@
    ||| k == "license_name"@
    ||| k == "rotation"@
    ||| k == "mirror"@
    ||| k == "subjects"@
}

fn sidecar_field(k: &str) -> (res: bool)
    ensures
        res == is_sidecar_field(k@),
{
    str_eq(k, "filename") || str_eq(k, "title") || str_eq(k, "original_date") || str_eq(
        k,
        "edtf_date",
    ) || str_eq(k, "source_url") || str_eq(k, "description") || str_eq(k, "creator") || str_eq(
        k,
        "reference_id",
    ) || str_eq(k, "license_name") || str_eq(k, "rotation") || str_eq(k, "mirror") || str_eq(
        k,
        "subjects",
    )
}

/// The message for a key that is not there.
pub open spec fn missing_msg(key: Seq<char>) -> Seq<char> {
    "missing required field `"@ + key + "`"@
}

/// `read_string_required`: a non-empty string.
pub open spec fn required_string(m: Seq<(String, JsonValue)>, key: Seq<char>) -> Result<
    Seq<char>,
    Seq<char>,
> {
    match member(m, key) {
        None => Err(missing_msg(key)),
        Some(JsonValue::Str(s)) => if s@.len() > 0 {
            Ok(s@)
        } else {
            Err("`"@ + key + "` must be a non-empty string"@)
        },
        Some(JsonValue::Null) => Err("`"@ + key + "` cannot be null"@),
        Some(_) => Err("`"@ + key + "` must be a string"@),
    }
}

/// `read_string_or_null`: a string, or `null` for none.
pub open spec fn optional_string(m: Seq<(String, JsonValue)>, key: Seq<char>) -> Result<
    Option<Seq<char>>,
    Seq<char>,
> {
    match member(m, key) {
        None => Err(missing_msg(key)),
        Some(JsonValue::Str(s)) => Ok(Some(s@)),
        Some(JsonValue::Null) => Ok(None),
        Some(_) => Err("`"@ + key + "` must be a string or null"@),
    }
}

/// A quarter turn: 0, 90, 180 or 270.
pub open spec fn is_rotation(n: i64) -> bool {
    n == 0 || n == 90 || n == 180 || n == 270
}

/// The accepted mirror values.
pub open spec fn is_mirror(s: Seq<char>) -> bool {
    s == "none"@ || s == "h"@ || s == "v"@
}

/// `read_rotation`.
pub open spec fn rotation_of(m: Seq<(String, JsonValue)>) -> Result<i64, Seq<char>> {
    match member(m, "rotation"@) {
        None => Err(missing_msg("rotation"@)),
        Some(JsonValue::Number(Some(n))) => if is_rotation(n) {
            Ok(n)
        } else {
            Err("`rotation` must be 0, 90, 180, or 270 (got "@ + signed_decimal(n as int) + ")"@)
        },
        Some(_) => Err("`rotation` must be an integer"@),
    }
}

/// `read_mirror`.
pub open spec fn mirror_of(m: Seq<(String, JsonValue)>) -> Result<Seq<char>, Seq<char>> {
    match member(m, "mirror"@) {
        None => Err(missing_msg("mirror"@)),
        Some(JsonValue::Str(s)) => if is_mirror(s@) {
            Ok(s@)
        } else {
            Err("`mirror` must be \"none\", \"h\", or \"v\" (got \""@ + s@ + "\")"@)
        },
        Some(_) => Err("`mirror` must be a string"@),
    }
}

/// Whether every item is a string.
pub open spec fn all_strings(items: Seq<JsonValue>) -> bool {
    forall|i: int| 0 <= i < items.len() ==> items[i] is Str
}

/// The strings of an all-string array.
pub open spec fn string_items(items: Seq<JsonValue>) -> Seq<Seq<char>> {
    Seq::new(
        items.len(),
        |i: int|
            match items[i] {
                JsonValue::Str(s) => s@,
                _ => Seq::empty(),
            },
    )
}

/// `read_subjects`: absent or `null` means none.
pub open spec fn subjects_of(m: Seq<(String, JsonValue)>) -> Result<Seq<Seq<char>>, Seq<char>> {
    match member(m, "subjects"@) {
        None => Ok(Seq::empty()),
        Some(JsonValue::Null) => Ok(Seq::empty()),
        Some(JsonValue::Array(items)) => if all_strings(items@) {
            Ok(string_items(items@))
        } else {
            Err("`subjects` must be an array of strings"@)
        },
        Some(_) => Err("`subjects` must be an array of strings or null"@),
    }
}

/// Whether the object has a key outside the schema.
pub open spec fn has_unknown_key(m: Seq<(String, JsonValue)>) -> bool {
    exists|i: int| 0 <= i < m.len() && !is_sidecar_field(#[trigger] m[i].0@)
}

/// `k` is the unknown key that sorts first.
pub open spec fn is_least_unknown(m: Seq<(String, JsonValue)>, k: Seq<char>) -> bool {
    &&& exists|i: int| 0 <= i < m.len() && #[trigger] m[i].0@ == k
    &&& !is_sidecar_field(k)
    &&& forall|i: int|
        0 <= i < m.len() && !is_sidecar_field(#[trigger] m[i].0@) ==> !seq_lt(m[i].0@, k)
}

/// The unknown key that sorts first.
pub open spec fn least_unknown(m: Seq<(String, JsonValue)>) -> Seq<char> {
    choose|k: Seq<char>| is_least_unknown(m, k)
}

/// The fields of a sidecar object, the first failing one reporting.
pub open spec fn sidecar_from_members(m: Seq<(String, JsonValue)>) -> Result<SidecarView, Seq<char>> {
    if has_unknown_key(m) {
        Err("unknown field `"@ + least_unknown(m) + "`"@)
    } else {
        match (
            required_string(m, "filename"@),
            required_string(m, "title"@),
            required_string(m, "original_date"@),
            required_string(m, "edtf_date"@),
        ) {
            (Err(e), _, _, _) => Err(e),
            (Ok(_), Err(e), _, _) => Err(e),
            (Ok(_), Ok(_), Err(e), _) => Err(e),
            (Ok(_), Ok(_), Ok(_), Err(e)) => Err(e),
            (Ok(filename), Ok(title), Ok(original_date), Ok(edtf_date)) => match (
                optional_string(m, "source_url"@),
                optional_string(m, "description"@),
                optional_string(m, "creator"@),
                optional_string(m, "reference_id"@),
                optional_string(m, "license_name"@),
            ) {
                (Err(e), _, _, _, _) => Err(e),
                (Ok(_), Err(e), _, _, _) => Err(e),
                (Ok(_), Ok(_), Err(e), _, _) => Err(e),
                (Ok(_), Ok(_), Ok(_), Err(e), _) => Err(e),
                (Ok(_), Ok(_), Ok(_), Ok(_), Err(e)) => Err(e),
                (
                    Ok(source_url),
                    Ok(description),
                    Ok(creator),
                    Ok(reference_id),
                    Ok(license_name),
                ) => match (rotation_of(m), mirror_of(m), subjects_of(m)) {
                    (Err(e), _, _) => Err(e),
                    (Ok(_), Err(e), _) => Err(e),
                    (Ok(_), Ok(_), Err(e)) => Err(e),
                    (Ok(rotation), Ok(mirror), Ok(subjects)) => Ok(
                        SidecarView {
                            filename,
                            title,
                            original_date,
                            edtf_date,
                            source_url,
                            description,
                            creator,
                            reference_id,
                            license_name,
                            rotation,
                            mirror,
                            subjects,
                        },
                    ),
                },
            },
        }
    }
}

/// What `parse_sidecar` makes of a parsed JSON document.
pub open spec fn sidecar_from_json(v: JsonValue) -> Result<SidecarView, Seq<char>> {
    match v {
        JsonValue::Object(m) => sidecar_from_members(m@),
        _ => Err("sidecar must be a JSON object"@),
    }
}

/// What `parse_sidecar` makes of a sidecar's text.
pub open spec fn sidecar_from_text(raw: Seq<char>) -> Result<SidecarView, Seq<char>> {
    match json_parse(raw) {
        Err(e) => Err("invalid JSON: "@ + e),
        Ok(v) => sidecar_from_json(v),
    }
}

fn require_present<'a>(m: &'a Vec<(String, JsonValue)>, key: &str) -> (res: Result<
    &'a JsonValue,
    String,
>)
    ensures
        match member(m@, key@) {
            Some(v) => res == Ok::<&JsonValue, String>(&v),
            None => res is Err && res->Err_0@ == missing_msg(key@),
        },
{
    match get_member(m, key) {
        Some(v) => Ok(v),
        None => Err(cat3("missing required field `", key, "`")),
    }
}

fn read_string_required(m: &Vec<(String, JsonValue)>, key: &str) -> (res: Result<String, String>)
    ensures
        match (res, required_string(m@, key@)) {
            (Ok(a), Ok(b)) => a@ == b,
            (Err(a), Err(b)) => a@ == b,
            _ => false,
        },
{
    let v = require_present(m, key)?;
    match v {
        JsonValue::Str(s) => {
            if s.as_str().is_empty() {
                Err(cat3("`", key, "` must be a non-empty string"))
            } else {
                Ok(s.clone())
            }
        },
        JsonValue::Null => Err(cat3("`", key, "` cannot be null")),
        _ => Err(cat3("`", key, "` must be a string")),
    }
}

fn read_string_or_null(m: &Vec<(String, JsonValue)>, key: &str) -> (res: Result<
    Option<String>,
    String,
>)
    ensures
        match (res, optional_string(m@, key@)) {
            (Ok(a), Ok(b)) => opt_view(a) == b,
            (Err(a), Err(b)) => a@ == b,
            _ => false,
        },
{
    let v = require_present(m, key)?;
    match v {
        JsonValue::Str(s) => Ok(Some(s.clone())),
        JsonValue::Null => Ok(None),
        _ => Err(cat3("`", key, "` must be a string or null")),
    }
}

fn read_rotation(m: &Vec<(String, JsonValue)>) -> (res: Result<i64, String>)
    ensures
        match (res, rotation_of(m@)) {
            (Ok(a), Ok(b)) => a == b,
            (Err(a), Err(b)) => a@ == b,
            _ => false,
        },
{
    let v = require_present(m, "rotation")?;
    match v {
        JsonValue::Number(Some(n)) => {
            let n = *n;
            if n == 0 || n == 90 || n == 180 || n == 270 {
                Ok(n)
            } else {
                let got = signed_decimal_string(n);
                Err(cat3("`rotation` must be 0, 90, 180, or 270 (got ", got.as_str(), ")"))
            }
        },
        _ => Err(to_string("`rotation` must be an integer")),
    }
}

/// Whether `s` is one of the accepted mirror values.
pub fn mirror_ok(s: &str) -> (res: bool)
    ensures
        res == is_mirror(s@),
{
    str_eq(s, "none") || str_eq(s, "h") || str_eq(s, "v")
}

fn read_mirror(m: &Vec<(String, JsonValue)>) -> (res: Result<String, String>)
    ensures
        match (res, mirror_of(m@)) {
            (Ok(a), Ok(b)) => a@ == b,
            (Err(a), Err(b)) => a@ == b,
            _ => false,
        },
{
    let v = require_present(m, "mirror")?;
    match v {
        JsonValue::Str(s) => {
            if mirror_ok(s.as_str()) {
                Ok(s.clone())
            } else {
                Err(
                    cat3(
                        "`mirror` must be \"none\", \"h\", or \"v\" (got \"",
                        s.as_str(),
                        "\")",
                    ),
                )
            }
        },
        _ => Err(to_string("`mirror` must be a string")),
    }
}

/// Read the optional `subjects` list of subject slugs. An absent key or an
/// explicit `null` both mean "no subjects"; when present it must be an array
/// of strings.
fn read_subjects(m: &Vec<(String, JsonValue)>) -> (res: Result<Vec<String>, String>)
    ensures
        match (res, subjects_of(m@)) {
            (Ok(a), Ok(b)) => views(a@) == b,
            (Err(a), Err(b)) => a@ == b,
            _ => false,
        },
{
    match get_member(m, "subjects") {
        None => Ok(Vec::new()),
        Some(JsonValue::Null) => Ok(Vec::new()),
        Some(JsonValue::Array(items)) => {
            let mut slugs: Vec<String> = Vec::new();
            let mut i: usize = 0;
            while i < items.len()
                invariant
                    member(m@, "subjects"@) == Some(JsonValue::Array(*items)),
                    i <= items@.len(),
                    slugs@.len() == i,
                    forall|j: int| 0 <= j < i ==> items@[j] is Str,
                    forall|j: int|
                        0 <= j < i ==> #[trigger] slugs@[j]@ == string_items(items@)[j],
                decreases items@.len() - i,
            {
                match &items[i] {
                    JsonValue::Str(s) => {
                        slugs.push(s.clone());
                    },
                    _ => {
                        assert(!(items@[i as int] is Str));
                        assert(!all_strings(items@));
                        return Err(to_string("`subjects` must be an array of strings"));
                    },
                }
                i = i + 1;
            }
            assert(views(slugs@) =~= string_items(items@));
            Ok(slugs)
        },
        Some(_) => Err(to_string("`subjects` must be an array of strings or null")),
    }
}

/// The unknown key that sorts first, if there is one.
fn first_unknown_key(m: &Vec<(String, JsonValue)>) -> (res: Option<String>)
    ensures
        match res {
            Some(k) => has_unknown_key(m@) && k@ == least_unknown(m@),
            None => !has_unknown_key(m@),
        },
{
    let mut best: Option<usize> = None;
    let mut i: usize = 0;
    while i < m.len()
        invariant
            i <= m@.len(),
            match best {
                Some(b) => {
                    &&& b < i
                    &&& !is_sidecar_field(m@[b as int].0@)
                    &&& forall|j: int|
                        0 <= j < i && !is_sidecar_field(#[trigger] m@[j].0@) ==> !seq_lt(
                            m@[j].0@,
                            m@[b as int].0@,
                        )
                },
                None => forall|j: int| 0 <= j < i ==> is_sidecar_field(#[trigger] m@[j].0@),
            },
        decreases m@.len() - i,
    {
        if !sidecar_field(m[i].0.as_str()) {
            match best {
                None => {
                    best = Some(i);
                    proof {
                        lemma_seq_lt_irreflexive(m@[i as int].0@);
                    }
                },
                Some(b) => {
                    if str_lt(m[i].0.as_str(), m[b].0.as_str()) {
                        proof {
                            lemma_seq_lt_irreflexive(m@[i as int].0@);
                            assert forall|j: int|
                                0 <= j < i + 1 && !is_sidecar_field(
                                    #[trigger] m@[j].0@,
                                ) implies !seq_lt(m@[j].0@, m@[i as int].0@) by {
                                if j < i && seq_lt(m@[j].0@, m@[i as int].0@) {
                                    lemma_seq_lt_transitive(
                                        m@[j].0@,
                                        m@[i as int].0@,
                                        m@[b as int].0@,
                                    );
                                }
                            }
                        }
                        best = Some(i);
                    }
                },
            }
        }
        i = i + 1;
    }
    match best {
        None => None,
        Some(b) => {
            let k = m[b].0.clone();
            proof {
                let kk = m@[b as int].0@;
                assert(is_least_unknown(m@, kk));
                let c = least_unknown(m@);
                assert(is_least_unknown(m@, c));
                if c != kk {
                    lemma_seq_lt_total(c, kk);
                }
            }
            Some(k)
        },
    }
}

/// Parse the members of a sidecar object into a [`Sidecar`], rejecting
/// unknown keys, missing keys, and wrong-typed values. Returns the first
/// error encountered.
pub fn sidecar_from_object(m: &Vec<(String, JsonValue)>) -> (res: Result<Sidecar, String>)
    ensures
        match (res, sidecar_from_members(m@)) {
            (Ok(a), Ok(b)) => a@ == b,
            (Err(a), Err(b)) => a@ == b,
            _ => false,
        },
{
    if let Some(first) = first_unknown_key(m) {
        return Err(cat3("unknown field `", first.as_str(), "`"));
    }
    let filename = read_string_required(m, "filename")?;
    let title = read_string_required(m, "title")?;
    let original_date = read_string_required(m, "original_date")?;
    let edtf_date = read_string_required(m, "edtf_date")?;
    let source_url = read_string_or_null(m, "source_url")?;
    let description = read_string_or_null(m, "description")?;
    let creator = read_string_or_null(m, "creator")?;
    let reference_id = read_string_or_null(m, "reference_id")?;
    let license_name = read_string_or_null(m, "license_name")?;
    let rotation = read_rotation(m)?;
    let mirror = read_mirror(m)?;
    let subjects = read_subjects(m)?;
    Ok(
        Sidecar {
            filename,
            title,
            original_date,
            edtf_date,
            source_url,
            description,
            creator,
            reference_id,
            license_name,
            rotation,
            mirror,
            subjects,
        },
    )
}

/// What `parse_sidecar` makes of an already parsed document.
pub fn sidecar_from_value(v: &JsonValue) -> (res: Result<Sidecar, String>)
    ensures
        match (res, sidecar_from_json(*v)) {
            (Ok(a), Ok(b)) => a@ == b,
            (Err(a), Err(b)) => a@ == b,
            _ => false,
        },
{
    match v {
        JsonValue::Object(m) => sidecar_from_object(m),
        _ => Err(to_string("sidecar must be a JSON object")),
    }
}

/// Parse a sidecar JSON blob into a [`Sidecar`], rejecting unknown keys,
/// missing keys, and wrong-typed values. Returns the first error encountered.
pub fn parse_sidecar(raw: &str) -> (res: Result<Sidecar, String>)
    ensures
        match (res, sidecar_from_text(raw@)) {
            (Ok(a), Ok(b)) => a@ == b,
            (Err(a), Err(b)) => a@ == b,
            _ => false,
        },
{
    match parse_json(raw) {
        Err(e) => Err(cat2("invalid JSON: ", e.as_str())),
        Ok(v) => sidecar_from_value(&v),
    }
}

} // verus!

verus! {

/// A sidecar's rotation is one of the four quarter turns: an integer
/// rotation is accepted exactly when it is 0, 90, 180 or 270, and is then
/// read as given.
pub proof fn lemma_rotation_values(m: Seq<(String, JsonValue)>, n: i64)
    ensures
        rotation_of(m) is Ok ==> {
            let r = rotation_of(m)->Ok_0;
            r == 0 || r == 90 || r == 180 || r == 270
        },
        member(m, "rotation"@) == Some(JsonValue::Number(Some(n))) ==> (rotation_of(m) is Ok <==> (n == 0
            || n == 90 || n == 180 || n == 270)),
        member(m, "rotation"@) == Some(JsonValue::Number(Some(n))) && rotation_of(m) is Ok ==> rotation_of(
            m,
        )->Ok_0 == n,
{
}

/// A sidecar's mirror is one of `none`, `h` and `v`: a string mirror is
/// accepted exactly when it is one of them, and is then read as given.
pub proof fn lemma_mirror_values(m: Seq<(String, JsonValue)>)
    ensures
        mirror_of(m) is Ok ==> {
            let s = mirror_of(m)->Ok_0;
            s == "none"@ || s == "h"@ || s == "v"@
        },
        member(m, "mirror"@) is Some && member(m, "mirror"@)->Some_0 is Str ==> (mirror_of(m) is Ok <==> {
            let s = member(m, "mirror"@)->Some_0->Str_0@;
            s == "none"@ || s == "h"@ || s == "v"@
        }),
{
}

} // verus!
