//! Downloading a collection's thumbnails into its cache: the file each
//! image is stored under, and the tally of a download run.
use vstd::prelude::*;

use crate::paths::{extension, extension_of, seg_start};
use crate::text::{
    chars_of, decimal, lowercase, push_decimal, push_str, string_of_range, to_lowercase,
};
use crate::web::{parse_url, url_parse};

verus! {

/// The number of bytes `c` takes in UTF-8.
pub open spec fn utf8_width(c: char) -> nat {
    if (c as u32) < 0x80 {
        1
    } else if (c as u32) < 0x800 {
        2
    } else if (c as u32) < 0x10000 {
        3
    } else {
        4
    }
}

/// The length of `s` in UTF-8 bytes (`str::len`).
pub open spec fn utf8_len(s: Seq<char>) -> nat
    decreases s.len(),
{
    if s.len() == 0 {
        0
    } else {
        utf8_len(s.drop_last()) + utf8_width(s.last())
    }
}

/// The byte length of `s`, counted up to a cap: the exact length when it is
/// at most `cap`, else something above `cap`.
fn utf8_len_capped(s: &str, cap: u64) -> (n: u64)
    requires
        cap < u64::MAX - 4,
    ensures
        n <= cap ==> n == utf8_len(s@),
        n > cap ==> utf8_len(s@) > cap,
{
    let cs = chars_of(s);
    let mut n: u64 = 0;
    let mut i: usize = 0;
    assert(cs@.take(0) =~= Seq::<char>::empty());
    while i < cs.len()
        invariant
            cs@ == s@,
            cap < u64::MAX - 4,
            i <= cs@.len(),
            n <= cap,
            n == utf8_len(cs@.take(i as int)),
        decreases cs@.len() - i,
    {
        let u = cs[i] as u32;
        let w: u64 = if u < 0x80 {
            1
        } else if u < 0x800 {
            2
        } else if u < 0x10000 {
            3
        } else {
            4
        };
        assert(cs@.take(i + 1).drop_last() == cs@.take(i as int));
        n = n + w;
        i = i + 1;
        if n > cap {
            proof {
                lemma_utf8_len_prefix(s@, i as int);
            }
            return n;
        }
    }
    assert(cs@.take(i as int) == s@);
    n
}

proof fn lemma_utf8_len_prefix(s: Seq<char>, j: int)
    requires
        0 <= j <= s.len(),
    ensures
        utf8_len(s.take(j)) <= utf8_len(s),
    decreases s.len() - j,
{
    if j < s.len() {
        lemma_utf8_len_prefix(s, j + 1);
        assert(s.take(j + 1).drop_last() == s.take(j));
    } else {
        assert(s.take(j) == s);
    }
}

/// The extension a thumbnail URL suggests: the last segment of its path
/// split at its last `'.'`, when both sides are non-empty and the extension
/// is at most five bytes, lower-cased.
pub open spec fn url_ext(url: Seq<char>) -> Option<Seq<char>> {
    match url_parse(url) {
        Err(_) => None,
        Ok((path, _)) => {
            let last = path.skip(seg_start(path));
            match extension(last) {
                Some(e) => if e.len() > 0 && utf8_len(e) <= 5 {
                    Some(lowercase(e))
                } else {
                    None
                },
                None => None,
            }
        },
    }
}

/// The lower-cased extension of the file a URL points at, if it looks like
/// one.
pub fn url_extension(url: &str) -> (res: Option<String>)
    ensures
        crate::paths::opt_seq(res) == url_ext(url@),
{
    let parsed = match parse_url(url) {
        Ok(u) => u,
        Err(_) => return None,
    };
    let cs = chars_of(parsed.path.as_str());
    let mut k: usize = cs.len();
    while k > 0 && cs[k - 1] != '/'
        invariant
            k <= cs@.len(),
            forall|j: int| k <= j < cs@.len() ==> cs@[j] != '/',
        decreases k,
    {
        k = k - 1;
    }
    proof {
        lemma_seg_start_last(cs@, k as int);
    }
    let last = string_of_range(&cs, k, cs.len());
    assert(last@ == cs@.skip(k as int));
    match extension_of(last.as_str()) {
        Some(e) => {
            let n = utf8_len_capped(e.as_str(), 5);
            if chars_of(e.as_str()).len() > 0 && n <= 5 {
                Some(to_lowercase(e.as_str()))
            } else {
                None
            }
        },
        None => None,
    }
}

proof fn lemma_seg_start_last(s: Seq<char>, k: int)
    requires
        0 <= k <= s.len(),
        forall|j: int| k <= j < s.len() ==> s[j] != '/',
        k == 0 || s[k - 1] == '/',
    ensures
        seg_start(s) == k,
    decreases s.len() - k,
{
    if s.len() > k {
        assert(s.drop_last().len() < s.len());
        lemma_seg_start_last(s.drop_last(), k);
    } else if k > 0 {
        assert(s.last() == s[k - 1]);
    }
}

/// The extension a thumbnail is stored under: the URL's, else `jpg`.
pub open spec fn stored_ext(url: Seq<char>) -> Seq<char> {
    match url_ext(url) {
        Some(e) => e,
        None => "jpg"@,
    }
}

/// The file name the thumbnail of image `id` is stored under, and the
/// temporary name it is downloaded to first.
pub fn thumbnail_names(id: u64, url: &str) -> (res: (String, String))
    ensures
        res.0@ == decimal(id as nat) + "."@ + stored_ext(url@),
        res.1@ == decimal(id as nat) + "."@ + stored_ext(url@) + ".tmp"@,
{
    let ext = match url_extension(url) {
        Some(e) => e,
        None => String::from_str("jpg"),
    };
    let mut name = String::new();
    push_decimal(&mut name, id);
    push_str(&mut name, ".");
    push_str(&mut name, ext.as_str());
    let mut tmp = String::from_str(name.as_str());
    push_str(&mut tmp, ".tmp");
    (name, tmp)
}

/// How one thumbnail download ended.
#[derive(Debug)]
pub enum DownloadOutcome {
    /// Fetched and stored.
    Stored,
    /// Already in the cache; nothing fetched.
    AlreadyThere,
    /// The fetch or the write failed.
    Failed,
}

/// The running counts of a download run.
#[derive(Debug)]
pub struct DownloadTally {
    pub done: u32,
    pub ok: u32,
    pub skipped: u32,
    pub failed: u32,
}

impl DownloadTally {
    /// Every finished download is counted once, under its outcome.
    pub open spec fn wf(&self) -> bool {
        self.done == self.ok + self.skipped + self.failed
    }

    /// A run with nothing done yet.
    pub fn new() -> (t: DownloadTally)
        ensures
            t.wf(),
            t.done == 0 && t.ok == 0 && t.skipped == 0 && t.failed == 0,
    {
        DownloadTally { done: 0, ok: 0, skipped: 0, failed: 0 }
    }

    /// Counts one finished download.
    pub fn record(&mut self, outcome: DownloadOutcome)
        requires
            old(self).wf(),
            old(self).done < u32::MAX,
        ensures
            final(self).wf(),
            final(self).done == old(self).done + 1,
            final(self).ok == old(self).ok + (if outcome is Stored {
                1int
            } else {
                0
            }),
            final(self).skipped == old(self).skipped + (if outcome is AlreadyThere {
                1int
            } else {
                0
            }),
            final(self).failed == old(self).failed + (if outcome is Failed {
                1int
            } else {
                0
            }),
    {
        self.done = self.done + 1;
        match outcome {
            DownloadOutcome::Stored => {
                self.ok = self.ok + 1;
            },
            DownloadOutcome::AlreadyThere => {
                self.skipped = self.skipped + 1;
            },
            DownloadOutcome::Failed => {
                self.failed = self.failed + 1;
            },
        }
    }
}

} // verus!
