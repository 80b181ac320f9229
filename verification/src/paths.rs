//! File-system paths as `/`-separated strings: the last component, its
//! extension and stem, and joining, the way `std::path::Path` reads them on
//! Unix.
use vstd::prelude::*;

use crate::text::{chars_of, lowercase, push_str, string_of_range, to_lowercase, to_string};

verus! {

/// Where the last `/`-separated segment of `s` starts.
pub open spec fn seg_start(s: Seq<char>) -> int
    decreases s.len(),
{
    if s.len() == 0 {
        0
    } else if s.last() == '/' {
        s.len() as int
    } else {
        seg_start(s.drop_last())
    }
}

/// The last segment starts within the path, and strictly before its end
/// when the path does not end in a separator.
pub proof fn lemma_seg_start_bound(s: Seq<char>)
    ensures
        0 <= seg_start(s) <= s.len(),
        s.len() > 0 && s.last() != '/' ==> seg_start(s) < s.len(),
    decreases s.len(),
{
    if s.len() > 0 && s.last() != '/' {
        lemma_seg_start_bound(s.drop_last());
    }
}

/// The last component of a path (`Path::file_name`): trailing separators and
/// `.` components are skipped; a path that ends in `..`, or has no normal
/// component, has none.
pub open spec fn file_name(s: Seq<char>) -> Option<Seq<char>>
    decreases s.len(),
{
    if s.len() == 0 {
        None
    } else if s.last() == '/' {
        file_name(s.drop_last())
    } else {
        let k = seg_start(s);
        proof {
            lemma_seg_start_bound(s);
        }
        let seg = s.skip(k);
        if seg == "."@ {
            if k == 0 {
                None
            } else {
                file_name(s.take(k))
            }
        } else if seg == ".."@ {
            None
        } else {
            Some(seg)
        }
    }
}

/// Whether `name` holds a `'.'` at `i` and none after it.
pub open spec fn is_last_dot(name: Seq<char>, i: int) -> bool {
    &&& 0 <= i < name.len()
    &&& name[i] == '.'
    &&& forall|j: int| i < j < name.len() ==> name[j] != '.'
}

/// Whether `name` holds a `'.'` that is not its first character.
pub open spec fn has_inner_dot(name: Seq<char>) -> bool {
    exists|i: int| 0 < i < name.len() && name[i] == '.'
}

/// The position of the last `'.'` of `name`.
pub open spec fn last_dot(name: Seq<char>) -> int {
    choose|i: int| is_last_dot(name, i)
}

/// The extension of a file name (`Path::extension`): what follows its last
/// `'.'`, unless that dot is the name's first character.
pub open spec fn extension(name: Seq<char>) -> Option<Seq<char>> {
    if has_inner_dot(name) {
        Some(name.skip(last_dot(name) + 1))
    } else {
        None
    }
}

/// The stem of a file name (`Path::file_stem`): what precedes its last `'.'`,
/// or the whole name when it has no extension.
pub open spec fn stem(name: Seq<char>) -> Seq<char> {
    if has_inner_dot(name) {
        name.take(last_dot(name))
    } else {
        name
    }
}

/// The extension of a path's last component.
pub open spec fn path_extension(p: Seq<char>) -> Option<Seq<char>> {
    match file_name(p) {
        Some(n) => extension(n),
        None => None,
    }
}

/// The stem of a path's last component.
pub open spec fn path_stem(p: Seq<char>) -> Option<Seq<char>> {
    match file_name(p) {
        Some(n) => Some(stem(n)),
        None => None,
    }
}

/// The extension of a path, lower-cased, or nothing.
pub open spec fn lower_extension(p: Seq<char>) -> Option<Seq<char>> {
    match path_extension(p) {
        Some(e) => Some(lowercase(e)),
        None => None,
    }
}

/// `base` with `name` pushed onto it (`Path::join`): an absolute `name`
/// replaces `base`; otherwise a separator is added where `base` lacks one.
pub open spec fn join(base: Seq<char>, name: Seq<char>) -> Seq<char> {
    if name.len() > 0 && name[0] == '/' {
        name
    } else if base.len() > 0 && base.last() != '/' {
        base + seq!['/'] + name
    } else {
        base + name
    }
}

/// The view of an optional string.
pub open spec fn opt_seq(o: Option<String>) -> Option<Seq<char>> {
    match o {
        Some(s) => Some(s@),
        None => None,
    }
}

proof fn lemma_seg_start_at(s: Seq<char>, k: int, e: int)
    requires
        0 <= k <= e <= s.len(),
        forall|j: int| k <= j < e ==> s[j] != '/',
        k == 0 || s[k - 1] == '/',
    ensures
        seg_start(s.take(e)) == k,
    decreases e - k,
{
    if e > k {
        assert(s.take(e).drop_last() == s.take(e - 1));
        lemma_seg_start_at(s, k, e - 1);
    } else if e > 0 {
        assert(s.take(e).last() == s[k - 1]);
    }
}

/// The last component of `path`.
pub fn file_name_of(path: &str) -> (res: Option<String>)
    ensures
        opt_seq(res) == file_name(path@),
{
    let cs = chars_of(path);
    let mut end: usize = cs.len();
    assert(cs@.take(cs@.len() as int) == cs@);
    loop
        invariant
            cs@ == path@,
            end <= cs@.len(),
            file_name(cs@.take(end as int)) == file_name(path@),
        decreases end,
    {
        let ghost s = cs@.take(end as int);
        if end == 0 {
            return None;
        }
        if cs[end - 1] == '/' {
            assert(s.drop_last() == cs@.take(end - 1));
            end = end - 1;
        } else {
            let mut k: usize = end;
            while k > 0 && cs[k - 1] != '/'
                invariant
                    k <= end <= cs@.len(),
                    forall|j: int| k <= j < end ==> cs@[j] != '/',
                decreases k,
            {
                k = k - 1;
            }
            proof {
                lemma_seg_start_at(cs@, k as int, end as int);
                lemma_seg_start_bound(s);
                assert(s.skip(k as int) == cs@.subrange(k as int, end as int));
                reveal_strlit(".");
                reveal_strlit("..");
            }
            let n = end - k;
            if n == 1 && cs[k] == '.' {
                assert(s.skip(k as int) == "."@);
                if k == 0 {
                    return None;
                }
                assert(s.take(k as int) == cs@.take(k as int));
                end = k;
            } else if n == 2 && cs[k] == '.' && cs[k + 1] == '.' {
                assert(s.skip(k as int) == ".."@);
                return None;
            } else {
                assert(s.skip(k as int) != "."@) by {
                    if s.skip(k as int) == "."@ {
                        assert(s.skip(k as int)[0] == cs@[k as int]);
                    }
                }
                assert(s.skip(k as int) != ".."@) by {
                    if s.skip(k as int) == ".."@ {
                        assert(s.skip(k as int)[0] == cs@[k as int]);
                        assert(s.skip(k as int)[1] == cs@[k + 1]);
                    }
                }
                return Some(string_of_range(&cs, k, end));
            }
        }
    }
}

/// The position of the last `'.'` in `cs`, if there is one past the start.
fn inner_dot(cs: &Vec<char>) -> (res: Option<usize>)
    ensures
        match res {
            Some(i) => has_inner_dot(cs@) && is_last_dot(cs@, i as int) && i > 0,
            None => !has_inner_dot(cs@),
        },
{
    let mut i: usize = cs.len();
    while i > 0 && cs[i - 1] != '.'
        invariant
            i <= cs@.len(),
            forall|j: int| i <= j < cs@.len() ==> cs@[j] != '.',
        decreases i,
    {
        i = i - 1;
    }
    if i <= 1 {
        assert(!has_inner_dot(cs@)) by {
            if has_inner_dot(cs@) {
                let w = choose|w: int| 0 < w < cs@.len() && cs@[w] == '.';
                assert(w >= i);
            }
        }
        None
    } else {
        assert(cs@[i - 1] == '.');
        Some(i - 1)
    }
}

proof fn lemma_last_dot_unique(name: Seq<char>, i: int)
    requires
        is_last_dot(name, i),
    ensures
        last_dot(name) == i,
{
    let j = last_dot(name);
    assert(is_last_dot(name, j));
    if j < i {
        assert(name[i] != '.');
    } else if i < j {
        assert(name[j] != '.');
    }
}

/// The extension of a file name.
pub fn extension_of(name: &str) -> (res: Option<String>)
    ensures
        opt_seq(res) == extension(name@),
{
    let cs = chars_of(name);
    match inner_dot(&cs) {
        Some(i) => {
            proof {
                lemma_last_dot_unique(name@, i as int);
            }
            assert(is_last_dot(cs@, i as int));
            assert(i < cs.len());
            assert(cs@.subrange(i + 1, cs@.len() as int) == name@.skip(i + 1));
            Some(string_of_range(&cs, i + 1, cs.len()))
        },
        None => None,
    }
}

/// The stem of a file name.
pub fn stem_of(name: &str) -> (res: String)
    ensures
        res@ == stem(name@),
{
    let cs = chars_of(name);
    match inner_dot(&cs) {
        Some(i) => {
            proof {
                lemma_last_dot_unique(name@, i as int);
            }
            assert(cs@.subrange(0, i as int) == name@.take(i as int));
            string_of_range(&cs, 0, i)
        },
        None => to_string(name),
    }
}

/// The extension of `path`'s last component (`Path::extension`).
pub fn path_extension_of(path: &str) -> (res: Option<String>)
    ensures
        opt_seq(res) == path_extension(path@),
{
    match file_name_of(path) {
        Some(n) => extension_of(n.as_str()),
        None => None,
    }
}

/// The lower-cased extension of `path`'s last component.
pub fn lower_extension_of(path: &str) -> (res: Option<String>)
    ensures
        opt_seq(res) == lower_extension(path@),
{
    match file_name_of(path) {
        Some(n) => match extension_of(n.as_str()) {
            Some(e) => Some(to_lowercase(e.as_str())),
            None => None,
        },
        None => None,
    }
}

/// The stem of `path`'s last component.
pub fn path_stem_of(path: &str) -> (res: Option<String>)
    ensures
        opt_seq(res) == path_stem(path@),
{
    match file_name_of(path) {
        Some(n) => Some(stem_of(n.as_str())),
        None => None,
    }
}

/// `base` joined with `name`.
pub fn join_path(base: &str, name: &str) -> (res: String)
    ensures
        res@ == join(base@, name@),
{
    let cn = chars_of(name);
    if cn.len() > 0 && cn[0] == '/' {
        return to_string(name);
    }
    let cb = chars_of(base);
    let mut out = to_string(base);
    if cb.len() > 0 && cb[cb.len() - 1] != '/' {
        push_str(&mut out, "/");
        proof {
            reveal_strlit("/");
        }
    }
    push_str(&mut out, name);
    out
}

} // verus!
