//! After a pair is imported its sidecar is renamed to `NNNNNN.json.done`,
//! with a `committed` block recording the new image id and when; and the
//! small decisions around a batch's files and the license list.
use vstd::prelude::*;

use crate::json::{json_parse, parse_json, JsonValue};
use crate::paths::join;
use crate::oauth::lemma_base_ignores_trailing_slashes;
use crate::text::{decimal, push_str, seq_lt, str_eq, str_lt, to_string, trim, trim_trailing_slashes, trimmed};

verus! {

/// `v` is the block that records a commit: when, and the image id.
pub open spec fn is_committed_block(v: JsonValue, image_id: i64, at: Seq<char>) -> bool {
    match v {
        JsonValue::Object(m) => {
            &&& m@.len() == 2
            &&& m@[0].0@ == "at"@ && (m@[0].1 matches JsonValue::Str(s) && s@ == at)
            &&& m@[1].0@ == "image_id"@ && m@[1].1 == JsonValue::Number(Some(image_id))
        },
        _ => false,
    }
}

/// The position of the first member named `key`, if any.
pub open spec fn key_index(m: Seq<(String, JsonValue)>, key: Seq<char>) -> Option<int> {
    if exists|i: int| 0 <= i < m.len() && (#[trigger] m[i]).0@ == key {
        Some(
            choose|i: int|
                0 <= i < m.len() && (#[trigger] m[i]).0@ == key && forall|j: int|
                    0 <= j < i ==> (#[trigger] m[j]).0@ != key,
        )
    } else {
        None
    }
}

/// `p` is where a new member named `key` goes among sorted members: after
/// every member whose name sorts before it.
pub open spec fn is_insert_point(m: Seq<(String, JsonValue)>, key: Seq<char>, p: int) -> bool {
    &&& 0 <= p <= m.len()
    &&& forall|j: int| 0 <= j < p ==> seq_lt(#[trigger] m[j].0@, key)
    &&& p < m.len() ==> !seq_lt(m[p].0@, key)
}

/// `out` is `m` with the member `key` set to a value satisfying `is_new`:
/// an existing member is replaced in place, otherwise the member is added at
/// its sorted position (`Map::insert` on serde_json's sorted map).
pub open spec fn is_set_member(
    m: Seq<(String, JsonValue)>,
    key: Seq<char>,
    out: Seq<(String, JsonValue)>,
    image_id: i64,
    at: Seq<char>,
) -> bool {
    match key_index(m, key) {
        Some(i) => {
            &&& out.len() == m.len()
            &&& forall|j: int| 0 <= j < m.len() && j != i ==> #[trigger] out[j] == m[j]
            &&& out[i].0@ == key && is_committed_block(out[i].1, image_id, at)
        },
        None => exists|p: int|
            is_insert_point(m, key, p) && {
                &&& out.len() == m.len() + 1
                &&& forall|j: int| 0 <= j < p ==> #[trigger] out[j] == m[j]
                &&& forall|j: int| p < j < out.len() ==> #[trigger] out[j] == m[j - 1]
                &&& out[p].0@ == key && is_committed_block(out[p].1, image_id, at)
            },
    }
}

/// What marking a sidecar done makes of its text: the document with its
/// `committed` block set, or why it could not be.
pub open spec fn is_done_document(raw: Seq<char>, image_id: i64, at: Seq<char>, res: Result<JsonValue, Seq<char>>) -> bool {
    match json_parse(raw) {
        Err(e) => res == Err::<JsonValue, Seq<char>>("parse sidecar for done-marking: "@ + e),
        Ok(JsonValue::Object(m)) => res matches Ok(JsonValue::Object(out)) && is_set_member(
            m@,
            "committed"@,
            out@,
            image_id,
            at,
        ),
        Ok(_) => res == Err::<JsonValue, Seq<char>>("sidecar root must be an object"@),
    }
}

fn committed_block(image_id: i64, at: &str) -> (v: JsonValue)
    ensures
        is_committed_block(v, image_id, at@),
{
    let mut m: Vec<(String, JsonValue)> = Vec::new();
    m.push((to_string("at"), JsonValue::Str(to_string(at))));
    m.push((to_string("image_id"), JsonValue::Number(Some(image_id))));
    JsonValue::Object(m)
}

/// The sidecar document with its commit recorded, from the sidecar's text,
/// the new image id and the time (RFC 3339) of the commit.
pub fn done_document(raw: &str, image_id: i64, at: &str) -> (res: Result<JsonValue, String>)
    ensures
        is_done_document(
            raw@,
            image_id,
            at@,
            match res {
                Ok(v) => Ok(v),
                Err(e) => Err(e@),
            },
        ),
{
    let parsed = match parse_json(raw) {
        Err(e) => {
            let mut m = to_string("parse sidecar for done-marking: ");
            push_str(&mut m, e.as_str());
            return Err(m);
        },
        Ok(v) => v,
    };
    let ghost doc = parsed;
    let mut m = match parsed {
        JsonValue::Object(m) => m,
        _ => return Err(to_string("sidecar root must be an object")),
    };
    let ghost m0 = m@;
    let key = "committed";
    let mut i: usize = 0;
    while i < m.len()
        invariant
            key@ == "committed"@,
            m@ == m0,
            doc matches JsonValue::Object(v) && v@ == m0,
            match json_parse(raw@) {
                Ok(w) => w == doc,
                Err(_) => false,
            },
            i <= m0.len(),
            forall|j: int| 0 <= j < i ==> (#[trigger] m0[j]).0@ != key@,
        decreases m0.len() - i,
    {
        if str_eq(m[i].0.as_str(), key) {
            let block = committed_block(image_id, at);
            let entry = (to_string(key), block);
            let ghost e = entry;
            m.set(i, entry);
            proof {
                assert(m@ == m0.update(i as int, e));
                assert(forall|j: int| 0 <= j < m0.len() && j != i ==> #[trigger] m@[j] == m0[j]);
                assert(m0[i as int].0@ == key@);
                let k = key_index(m0, key@);
                let c = k->0;
                assert(c == i as int) by {
                    if c < i {
                    } else if c > i {
                    }
                }
                assert(m@[i as int].0@ == key@);
                assert(is_committed_block(m@[i as int].1, image_id, at@));
                assert(is_set_member(m0, key@, m@, image_id, at@));
            }
            return Ok(JsonValue::Object(m));
        }
        i = i + 1;
    }
    assert(key_index(m0, key@) is None);
    let mut p: usize = 0;
    while p < m.len() && str_lt(m[p].0.as_str(), key)
        invariant
            m@ == m0,
            p <= m0.len(),
            forall|j: int| 0 <= j < p ==> seq_lt(#[trigger] m0[j].0@, key@),
        decreases m0.len() - p,
    {
        p = p + 1;
    }
    let block = committed_block(image_id, at);
    let entry = (to_string(key), block);
    let ghost e = entry;
    m.insert(p, entry);
    proof {
        assert(m@ == m0.insert(p as int, e));
        assert(is_insert_point(m0, key@, p as int));
    }
    Ok(JsonValue::Object(m))
}

/// Where the done-marked sidecar goes, and the temporary file it is first
/// written to.
pub fn done_paths(sidecar_path: &str) -> (res: (String, String))
    ensures
        res.0@ == sidecar_path@ + ".done"@,
        res.1@ == sidecar_path@ + ".done.tmp"@,
{
    let mut done = to_string(sidecar_path);
    push_str(&mut done, ".done");
    let mut tmp = to_string(sidecar_path);
    push_str(&mut tmp, ".done.tmp");
    (done, tmp)
}

/// The cache folder of a collection.
pub fn collection_dir(cache_root: &str, collection_id: u64) -> (res: String)
    ensures
        res@ == join(join(cache_root@, "collections"@), decimal(collection_id as nat)),
{
    let base = crate::paths::join_path(cache_root, "collections");
    let id = crate::text::decimal_string(collection_id);
    crate::paths::join_path(base.as_str(), id.as_str())
}

/// How the license-list request ended.
#[derive(Debug)]
pub enum LicenseReply {
    /// The request could not be sent, or its reply not read.
    SendFailed(String),
    /// The server answered with a status other than success.
    Rejected { status: String, body: String },
    /// The reply's names, or why its body did not read as a license list.
    Parsed(Result<Vec<String>, String>),
}

/// The endpoint that lists the licenses an instance recognizes.
pub fn licenses_url(base: &str) -> (res: String)
    ensures
        res@ == base@ + "/api/v2/licenses/"@,
{
    let mut s = to_string(base);
    push_str(&mut s, "/api/v2/licenses/");
    s
}

/// The license request of an instance address: its base (every trailing
/// slash dropped, as `instance_base` gives it) followed by the endpoint.
pub open spec fn license_request_of(instance_url: Seq<char>) -> Seq<char> {
    trim_trailing_slashes(instance_url) + "/api/v2/licenses/"@
}

/// The pre-flight reads the instance address only to request the license
/// list, so trailing slashes cannot change what it does: the address with
/// any number of slashes added requests the same URL.
pub proof fn lemma_license_request_ignores_trailing_slashes(instance_url: Seq<char>, k: nat)
    ensures
        license_request_of(instance_url + Seq::new(k, |i: int| '/')) == license_request_of(instance_url),
{
    lemma_base_ignores_trailing_slashes(instance_url, k);
}

/// The license names, or the message a failed fetch is reported with.
pub fn license_names(reply: LicenseReply) -> (res: Result<Vec<String>, String>)
    ensures
        match reply {
            LicenseReply::SendFailed(e) => res is Err && res->Err_0@ == "licenses request failed: "@
                + e@,
            LicenseReply::Rejected { status, body } => res is Err && res->Err_0@ == "licenses "@
                + status@ + ": "@ + trim(body@),
            LicenseReply::Parsed(Err(e)) => res is Err && res->Err_0@ == "licenses parse failed: "@
                + e@,
            LicenseReply::Parsed(Ok(names)) => res is Ok && res->Ok_0@ == names@,
        },
{
    match reply {
        LicenseReply::SendFailed(e) => {
            let mut m = to_string("licenses request failed: ");
            push_str(&mut m, e.as_str());
            Err(m)
        },
        LicenseReply::Rejected { status, body } => {
            let mut m = to_string("licenses ");
            push_str(&mut m, status.as_str());
            push_str(&mut m, ": ");
            let b = trimmed(body.as_str());
            push_str(&mut m, b.as_str());
            Err(m)
        },
        LicenseReply::Parsed(Err(e)) => {
            let mut m = to_string("licenses parse failed: ");
            push_str(&mut m, e.as_str());
            Err(m)
        },
        LicenseReply::Parsed(Ok(names)) => Ok(names),
    }
}

} // verus!
