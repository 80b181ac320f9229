//! Natural ordering of file names: `IMG_2` before `IMG_10`.
use std::cmp::Ordering;

use vstd::prelude::*;

use crate::paths::{file_name, file_name_of};
use crate::text::{
    ascii_lower, ascii_lower_char, chars_of, is_digit, lemma_seq_lt_irreflexive,
    lemma_seq_lt_total, lemma_seq_lt_transitive, seq_lt, str_eq, str_lt, string_of_range,
};

verus! {

/// A three-way comparison result.
#[derive(Debug)]
pub enum Order3 {
    Less,
    Equal,
    Greater,
}

/// The opposite comparison.
pub open spec fn flip(o: Order3) -> Order3 {
    match o {
        Order3::Less => Order3::Greater,
        Order3::Equal => Order3::Equal,
        Order3::Greater => Order3::Less,
    }
}

/// The number of leading ASCII digits of `s`.
pub open spec fn run_len(s: Seq<char>) -> nat
    decreases s.len(),
{
    if s.len() > 0 && is_digit(s[0]) {
        1 + run_len(s.drop_first())
    } else {
        0
    }
}

/// `s` without its leading `'0'`s.
pub open spec fn strip_zeros(s: Seq<char>) -> Seq<char>
    decreases s.len(),
{
    if s.len() > 0 && s[0] == '0' {
        strip_zeros(s.drop_first())
    } else {
        s
    }
}

/// Plain lexicographic comparison.
pub open spec fn lex(a: Seq<char>, b: Seq<char>) -> Order3 {
    if a == b {
        Order3::Equal
    } else if seq_lt(a, b) {
        Order3::Less
    } else {
        Order3::Greater
    }
}

/// Two digit runs compared by value: fewer significant digits first, then
/// digit by digit.
pub open spec fn number_order(ta: Seq<char>, tb: Seq<char>) -> Order3 {
    if ta.len() < tb.len() {
        Order3::Less
    } else if ta.len() > tb.len() {
        Order3::Greater
    } else {
        lex(ta, tb)
    }
}

/// A run of digits is no longer than the text it starts, and is not empty
/// when the text starts with a digit.
pub proof fn lemma_run_len_bound(s: Seq<char>)
    ensures
        run_len(s) <= s.len(),
        s.len() > 0 && is_digit(s[0]) ==> run_len(s) >= 1,
    decreases s.len(),
{
    if s.len() > 0 && is_digit(s[0]) {
        lemma_run_len_bound(s.drop_first());
    }
}

/// Natural order: runs of digits compare as numbers, other characters
/// compare ignoring ASCII case, and a string sorts after its prefixes.
pub open spec fn natural(a: Seq<char>, b: Seq<char>) -> Order3
    decreases a.len() + b.len(),
{
    if a.len() == 0 {
        if b.len() == 0 {
            Order3::Equal
        } else {
            Order3::Less
        }
    } else if b.len() == 0 {
        Order3::Greater
    } else if is_digit(a[0]) && is_digit(b[0]) {
        let ra = run_len(a);
        let rb = run_len(b);
        proof {
            lemma_run_len_bound(a);
            lemma_run_len_bound(b);
        }
        let o = number_order(strip_zeros(a.take(ra as int)), strip_zeros(b.take(rb as int)));
        if o != Order3::Equal {
            o
        } else {
            natural(a.skip(ra as int), b.skip(rb as int))
        }
    } else {
        let la = ascii_lower(a[0]);
        let lb = ascii_lower(b[0]);
        if la != lb {
            if (la as u32) < (lb as u32) {
                Order3::Less
            } else {
                Order3::Greater
            }
        } else {
            natural(a.drop_first(), b.drop_first())
        }
    }
}

} // verus!

verus! {

proof fn lemma_run_len_skip(s: Seq<char>, i: int, e: int)
    requires
        0 <= i <= e <= s.len(),
        forall|k: int| i <= k < e ==> is_digit(#[trigger] s[k]),
        e == s.len() || !is_digit(s[e]),
    ensures
        run_len(s.skip(i)) == e - i,
    decreases e - i,
{
    if i < e {
        assert(s.skip(i).drop_first() == s.skip(i + 1));
        lemma_run_len_skip(s, i + 1, e);
    } else {
        if e < s.len() {
            assert(s.skip(i)[0] == s[e]);
        }
    }
}

proof fn lemma_strip_range(s: Seq<char>, i: int, z: int, e: int)
    requires
        0 <= i <= z <= e <= s.len(),
        forall|k: int| i <= k < z ==> #[trigger] s[k] == '0',
        z == e || s[z] != '0',
    ensures
        strip_zeros(s.subrange(i, e)) == s.subrange(z, e),
    decreases z - i,
{
    if i < z {
        assert(s.subrange(i, e).drop_first() == s.subrange(i + 1, e));
        lemma_strip_range(s, i + 1, z, e);
    } else if z < e {
        assert(s.subrange(i, e)[0] == s[z]);
    }
}

/// The end of the digit run that starts at `i`.
fn run_end(cs: &Vec<char>, i: usize) -> (e: usize)
    requires
        i <= cs@.len(),
    ensures
        i <= e <= cs@.len(),
        run_len(cs@.skip(i as int)) == e - i,
{
    let mut e = i;
    while e < cs.len() && '0' <= cs[e] && cs[e] <= '9'
        invariant
            i <= e <= cs@.len(),
            forall|k: int| i <= k < e ==> is_digit(#[trigger] cs@[k]),
        decreases cs@.len() - e,
    {
        e = e + 1;
    }
    proof {
        lemma_run_len_skip(cs@, i as int, e as int);
    }
    e
}

/// The first position in `i..e` that is not a `'0'`.
fn zeros_end(cs: &Vec<char>, i: usize, e: usize) -> (z: usize)
    requires
        i <= e <= cs@.len(),
    ensures
        i <= z <= e,
        strip_zeros(cs@.subrange(i as int, e as int)) == cs@.subrange(z as int, e as int),
{
    let mut z = i;
    while z < e && cs[z] == '0'
        invariant
            i <= z <= e <= cs@.len(),
            forall|k: int| i <= k < z ==> #[trigger] cs@[k] == '0',
        decreases e - z,
    {
        z = z + 1;
    }
    proof {
        lemma_strip_range(cs@, i as int, z as int, e as int);
    }
    z
}

fn lex_of(a: &str, b: &str) -> (o: Order3)
    ensures
        o == lex(a@, b@),
{
    if str_eq(a, b) {
        Order3::Equal
    } else if str_lt(a, b) {
        Order3::Less
    } else {
        Order3::Greater
    }
}

/// The natural order of two strings.
pub fn natural_order(a: &str, b: &str) -> (res: Order3)
    ensures
        res == natural(a@, b@),
{
    let ca = chars_of(a);
    let cb = chars_of(b);
    let mut i: usize = 0;
    let mut j: usize = 0;
    assert(ca@.skip(0) == a@);
    assert(cb@.skip(0) == b@);
    loop
        invariant
            ca@ == a@,
            cb@ == b@,
            i <= ca@.len(),
            j <= cb@.len(),
            natural(ca@.skip(i as int), cb@.skip(j as int)) == natural(a@, b@),
        decreases ca@.len() + cb@.len() - i - j,
    {
        let ghost sa = ca@.skip(i as int);
        let ghost sb = cb@.skip(j as int);
        if i == ca.len() && j == cb.len() {
            return Order3::Equal;
        }
        if i == ca.len() {
            return Order3::Less;
        }
        if j == cb.len() {
            return Order3::Greater;
        }
        assert(sa[0] == ca@[i as int]);
        assert(sb[0] == cb@[j as int]);
        let x = ca[i];
        let y = cb[j];
        if '0' <= x && x <= '9' && '0' <= y && y <= '9' {
            let ea = run_end(&ca, i);
            let eb = run_end(&cb, j);
            let za = zeros_end(&ca, i, ea);
            let zb = zeros_end(&cb, j, eb);
            proof {
                lemma_run_len_bound(sa);
                lemma_run_len_bound(sb);
                assert(sa.take((ea - i) as int) == ca@.subrange(i as int, ea as int));
                assert(sb.take((eb - j) as int) == cb@.subrange(j as int, eb as int));
                assert(sa.skip((ea - i) as int) == ca@.skip(ea as int));
                assert(sb.skip((eb - j) as int) == cb@.skip(eb as int));
            }
            let la = ea - za;
            let lb = eb - zb;
            if la < lb {
                return Order3::Less;
            }
            if la > lb {
                return Order3::Greater;
            }
            let ta = string_of_range(&ca, za, ea);
            let tb = string_of_range(&cb, zb, eb);
            match lex_of(ta.as_str(), tb.as_str()) {
                Order3::Less => {
                    return Order3::Less;
                },
                Order3::Greater => {
                    return Order3::Greater;
                },
                Order3::Equal => {},
            }
            i = ea;
            j = eb;
        } else {
            let lx = ascii_lower_char(x);
            let ly = ascii_lower_char(y);
            if lx != ly {
                if lx < ly {
                    return Order3::Less;
                } else {
                    return Order3::Greater;
                }
            }
            assert(sa.drop_first() == ca@.skip(i + 1));
            assert(sb.drop_first() == cb@.skip(j + 1));
            i = i + 1;
            j = j + 1;
        }
    }
}


/// Order filenames the way a person would read them: `IMG_2` before
/// `IMG_10`. Runs of digits compare by value, other characters ignoring
/// ASCII case.
pub fn natural_cmp(a: &str, b: &str) -> (res: Ordering)
    ensures
        res == (match natural(a@, b@) {
            Order3::Less => Ordering::Less,
            Order3::Equal => Ordering::Equal,
            Order3::Greater => Ordering::Greater,
        }),
{
    match natural_order(a, b) {
        Order3::Less => Ordering::Less,
        Order3::Equal => Ordering::Equal,
        Order3::Greater => Ordering::Greater,
    }
}

} // verus!

verus! {

proof fn lemma_lex_flip(a: Seq<char>, b: Seq<char>)
    ensures
        lex(a, b) == flip(lex(b, a)),
{
    if a != b {
        lemma_seq_lt_total(a, b);
        if seq_lt(a, b) && seq_lt(b, a) {
            lemma_seq_lt_transitive(a, b, a);
            lemma_seq_lt_irreflexive(a);
        }
    }
}

/// Swapping the arguments of the natural order flips its answer.
pub proof fn lemma_natural_antisymmetric(a: Seq<char>, b: Seq<char>)
    ensures
        natural(a, b) == flip(natural(b, a)),
    decreases a.len() + b.len(),
{
    if a.len() > 0 && b.len() > 0 {
        if is_digit(a[0]) && is_digit(b[0]) {
            lemma_run_len_bound(a);
            lemma_run_len_bound(b);
            let ta = strip_zeros(a.take(run_len(a) as int));
            let tb = strip_zeros(b.take(run_len(b) as int));
            lemma_lex_flip(ta, tb);
            lemma_natural_antisymmetric(a.skip(run_len(a) as int), b.skip(run_len(b) as int));
        } else {
            let la = ascii_lower(a[0]);
            let lb = ascii_lower(b[0]);
            vstd::utf8::char_u32_cast(la, la as u32);
            vstd::utf8::char_u32_cast(lb, lb as u32);
            lemma_natural_antisymmetric(a.drop_first(), b.drop_first());
        }
    }
}

/// Every string is naturally equal to itself.
pub proof fn lemma_natural_reflexive(a: Seq<char>)
    ensures
        natural(a, a) == Order3::Equal,
    decreases a.len(),
{
    if a.len() > 0 {
        if is_digit(a[0]) {
            lemma_run_len_bound(a);
            lemma_natural_reflexive(a.skip(run_len(a) as int));
        } else {
            lemma_natural_reflexive(a.drop_first());
        }
    }
}

/// `i` may stand right before `j` in a stable natural sort of `keys`.
pub open spec fn in_order(keys: Seq<Seq<char>>, i: usize, j: usize) -> bool {
    let o = natural(keys[i as int], keys[j as int]);
    o == Order3::Less || (o == Order3::Equal && i < j)
}

/// `p` lists `0..n`, each once.
pub open spec fn is_permutation(p: Seq<usize>, n: nat) -> bool {
    &&& p.len() == n
    &&& forall|i: int| 0 <= i < p.len() ==> p[i] < n
    &&& forall|i: int, j: int| 0 <= i < j < p.len() ==> p[i] != p[j]
}

/// Consecutive entries of `p` are in stable natural order of `keys`.
pub open spec fn naturally_sorted(keys: Seq<Seq<char>>, p: Seq<usize>) -> bool {
    forall|i: int, j: int|
        #![trigger p[i], p[j]]
        0 <= i && j == i + 1 && j < p.len() ==> in_order(keys, p[i], p[j])
}

/// The string views of a vector of strings.
pub open spec fn key_views(v: Seq<String>) -> Seq<Seq<char>> {
    v.map_values(|s: String| s@)
}

/// The order in which a stable sort by `natural_cmp` lists `keys`: a
/// permutation of their positions in which each key is naturally no greater
/// than the next, equal keys keeping their original order.
pub fn natural_sort_order(keys: &Vec<String>) -> (p: Vec<usize>)
    ensures
        is_permutation(p@, keys@.len()),
        naturally_sorted(key_views(keys@), p@),
        forall|i: int, j: int|
            0 <= i < j < p@.len() ==> in_order(key_views(keys@), #[trigger] p@[i], #[trigger] p@[j]),
{
    let ghost ks = key_views(keys@);
    let mut p: Vec<usize> = Vec::new();
    let n = keys.len();
    for k in 0..n
        invariant
            n == keys@.len(),
            ks == key_views(keys@),
            p@.len() == k,
            forall|i: int| 0 <= i < p@.len() ==> p@[i] < k,
            forall|i: int, j: int| 0 <= i < j < p@.len() ==> p@[i] != p@[j],
            naturally_sorted(ks, p@),
    {
        let mut j: usize = p.len();
        while j > 0 && matches!(natural_order(keys[p[j - 1]].as_str(), keys[k].as_str()), Order3::Greater)
            invariant
                n == keys@.len(),
                ks == key_views(keys@),
                k < n,
                j <= p@.len(),
                forall|i: int| 0 <= i < p@.len() ==> p@[i] < k,
                forall|m: int|
                    j <= m < p@.len() ==> natural(ks[p@[m] as int], ks[k as int]) == Order3::Greater,
            decreases j,
        {
            j = j - 1;
        }
        let ghost old_p = p@;
        p.insert(j, k);
        proof {
            assert(p@ == old_p.insert(j as int, k));
            if j > 0 {
                assert(natural(ks[old_p[j - 1] as int], ks[k as int]) != Order3::Greater);
            }
            if j < old_p.len() {
                lemma_natural_antisymmetric(ks[k as int], ks[old_p[j as int] as int]);
            }
            assert forall|a: int, b: int|
                #![trigger p@[a], p@[b]]
                0 <= a && b == a + 1 && b < p@.len() implies in_order(ks, p@[a], p@[b]) by {
                if b < j {
                    assert(p@[a] == old_p[a] && p@[b] == old_p[b]);
                    assert(in_order(ks, old_p[a], old_p[b]));
                } else if a > j {
                    assert(p@[a] == old_p[a - 1] && p@[b] == old_p[b - 1]);
                    assert(in_order(ks, old_p[a - 1], old_p[b - 1]));
                }
            }
            assert forall|a: int, b: int| 0 <= a < b < p@.len() implies p@[a] != p@[b] by {
                if a < j && b > j {
                    assert(p@[b] == old_p[b - 1]);
                } else if a > j {
                    assert(p@[a] == old_p[a - 1] && p@[b] == old_p[b - 1]);
                }
            }
        }
    }
    proof {
        lemma_sorted_everywhere(ks, p@);
    }
    p
}

/// The name a path sorts by: its last component, or nothing.
pub open spec fn sort_name(path: Seq<char>) -> Seq<char> {
    match file_name(path) {
        Some(n) => n,
        None => Seq::empty(),
    }
}

/// The names that `paths` sort by.
pub open spec fn sort_names(paths: Seq<String>) -> Seq<Seq<char>> {
    Seq::new(paths.len(), |i: int| sort_name(paths[i]@))
}

/// The order in which the files at `paths` are listed: stably, by the natural
/// order of their file names.
pub fn natural_path_order(paths: &Vec<String>) -> (p: Vec<usize>)
    ensures
        is_permutation(p@, paths@.len()),
        naturally_sorted(sort_names(paths@), p@),
        forall|i: int, j: int|
            0 <= i < j < p@.len() ==> in_order(sort_names(paths@), #[trigger] p@[i], #[trigger] p@[j]),
{
    let mut names: Vec<String> = Vec::new();
    for i in 0..paths.len()
        invariant
            names@.len() == i,
            forall|j: int| 0 <= j < i ==> #[trigger] names@[j]@ == sort_name(paths@[j]@),
    {
        let name = match file_name_of(paths[i].as_str()) {
            Some(n) => n,
            None => String::new(),
        };
        names.push(name);
    }
    assert(key_views(names@) == sort_names(paths@));
    natural_sort_order(&names)
}

} // verus!

verus! {

proof fn lemma_lex_trans(a: Seq<char>, b: Seq<char>, c: Seq<char>)
    requires
        lex(a, b) != Order3::Greater,
        lex(b, c) != Order3::Greater,
    ensures
        lex(a, c) != Order3::Greater,
        (lex(a, b) == Order3::Less || lex(b, c) == Order3::Less) ==> lex(a, c) == Order3::Less,
{
    if lex(a, b) == Order3::Less && lex(b, c) == Order3::Less {
        lemma_seq_lt_transitive(a, b, c);
        if a == c {
            lemma_seq_lt_transitive(a, b, a);
            lemma_seq_lt_irreflexive(a);
        }
    }
}

proof fn lemma_number_trans(a: Seq<char>, b: Seq<char>, c: Seq<char>)
    requires
        number_order(a, b) != Order3::Greater,
        number_order(b, c) != Order3::Greater,
    ensures
        number_order(a, c) != Order3::Greater,
        (number_order(a, b) == Order3::Less || number_order(b, c) == Order3::Less) ==> number_order(
            a,
            c,
        ) == Order3::Less,
        number_order(a, b) == Order3::Equal && number_order(b, c) == Order3::Equal ==> a == b && b
            == c,
{
    if a.len() == b.len() && b.len() == c.len() {
        lemma_lex_trans(a, b, c);
    }
}

/// A digit's lower-case form is itself; any other character's is no digit.
proof fn lemma_lower_class(x: char)
    ensures
        is_digit(x) ==> ascii_lower(x) == x,
        !is_digit(x) ==> !is_digit(ascii_lower(x)),
        !is_digit(ascii_lower(x)) ==> (ascii_lower(x) as u32) < 0x30 || (ascii_lower(x) as u32)
            > 0x39,
        is_digit(ascii_lower(x)) ==> 0x30 <= (ascii_lower(x) as u32) <= 0x39,
{
    if 'A' <= x && x <= 'Z' {
        assert(0x61 <= (ascii_lower(x) as u32) <= 0x7a);
    }
}

/// The natural order is transitive, and strict as soon as one step is.
pub proof fn lemma_natural_transitive(a: Seq<char>, b: Seq<char>, c: Seq<char>)
    requires
        natural(a, b) != Order3::Greater,
        natural(b, c) != Order3::Greater,
    ensures
        natural(a, c) != Order3::Greater,
        (natural(a, b) == Order3::Less || natural(b, c) == Order3::Less) ==> natural(a, c)
            == Order3::Less,
    decreases a.len() + b.len() + c.len(),
{
    if a.len() == 0 || b.len() == 0 || c.len() == 0 {
        return;
    }
    lemma_lower_class(a[0]);
    lemma_lower_class(b[0]);
    lemma_lower_class(c[0]);
    let la = ascii_lower(a[0]);
    let lb = ascii_lower(b[0]);
    let lc = ascii_lower(c[0]);
    let (da, db, dc) = (is_digit(a[0]), is_digit(b[0]), is_digit(c[0]));
    if da && db && dc {
        lemma_run_len_bound(a);
        lemma_run_len_bound(b);
        lemma_run_len_bound(c);
        let ta = strip_zeros(a.take(run_len(a) as int));
        let tb = strip_zeros(b.take(run_len(b) as int));
        let tc = strip_zeros(c.take(run_len(c) as int));
        lemma_number_trans(ta, tb, tc);
        if number_order(ta, tb) == Order3::Equal && number_order(tb, tc) == Order3::Equal {
            lemma_natural_transitive(
                a.skip(run_len(a) as int),
                b.skip(run_len(b) as int),
                c.skip(run_len(c) as int),
            );
        }
    } else if !da && !db && !dc {
        if la == lb && lb == lc {
            lemma_natural_transitive(a.drop_first(), b.drop_first(), c.drop_first());
        }
    }
}

/// Consecutive order extends to every later position.
proof fn lemma_sorted_all_pairs(keys: Seq<Seq<char>>, p: Seq<usize>, i: int, j: int)
    requires
        naturally_sorted(keys, p),
        0 <= i < j < p.len(),
    ensures
        in_order(keys, p[i], p[j]),
    decreases j - i,
{
    if j > i + 1 {
        lemma_sorted_all_pairs(keys, p, i, j - 1);
        assert(in_order(keys, p[j - 1], p[j]));
        lemma_natural_transitive(keys[p[i] as int], keys[p[j - 1] as int], keys[p[j] as int]);
    } else {
        assert(in_order(keys, p[i], p[j]));
    }
}

/// A naturally sorted permutation orders every pair, not just neighbours:
/// an earlier key is naturally smaller, or equal and earlier in the input.
pub proof fn lemma_sorted_everywhere(keys: Seq<Seq<char>>, p: Seq<usize>)
    requires
        naturally_sorted(keys, p),
    ensures
        forall|i: int, j: int| 0 <= i < j < p.len() ==> in_order(keys, #[trigger] p[i], #[trigger] p[j]),
{
    assert forall|i: int, j: int| 0 <= i < j < p.len() implies in_order(keys, #[trigger] p[i], #[trigger] p[j]) by {
        lemma_sorted_all_pairs(keys, p, i, j);
    }
}

} // verus!
