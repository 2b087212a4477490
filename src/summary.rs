use vstd::prelude::*;

use crate::text::{chars_of, contains, contains_chars, opt_chars};

verus! {

/// An archive-wide summary of the images of a Windows archive.
#[derive(Debug, Clone)]
pub struct WindowsInfo {
    /// The most frequent version label.
    pub version: String,
    /// The most frequent architecture label.
    pub architecture: String,
    /// The edition labels found in the image names, first seen first.
    pub editions: Vec<String>,
    /// The number of images, as 32 bits.
    pub image_count: u32,
    /// The sum of the images' sizes, modulo 2^64.
    pub total_size: u64,
}

/// How many of `labels` are `Some(l)`.
pub open spec fn label_count(labels: Seq<Option<Seq<char>>>, l: Seq<char>) -> nat
    decreases labels.len(),
{
    if labels.len() == 0 {
        0
    } else {
        label_count(labels.drop_last(), l) + if labels.last() == Some(l) {
            1nat
        } else {
            0nat
        }
    }
}

/// Position `p` holds the primary label: no label is more frequent, and any
/// label as frequent is first seen no earlier than `p`.
pub open spec fn primary_at(labels: Seq<Option<Seq<char>>>, p: int) -> bool {
    &&& 0 <= p < labels.len()
    &&& labels[p] is Some
    &&& forall|q: int|
        0 <= q < labels.len() && #[trigger] labels[q] is Some ==> label_count(labels, labels[q]->0)
            < label_count(labels, labels[p]->0) || (label_count(labels, labels[q]->0)
            == label_count(labels, labels[p]->0) && p <= q)
}

/// The most frequent label; among equally frequent labels, the one seen first.
/// Absent labels are not counted.
pub open spec fn primary_label(labels: Seq<Option<Seq<char>>>) -> Option<Seq<char>> {
    if exists|p: int| primary_at(labels, p) {
        labels[choose|p: int| primary_at(labels, p)]
    } else {
        None
    }
}

proof fn lemma_primary_unique(labels: Seq<Option<Seq<char>>>, p1: int, p2: int)
    requires
        primary_at(labels, p1),
        primary_at(labels, p2),
    ensures
        p1 == p2,
{
    assert(labels[p1] is Some);
    assert(labels[p2] is Some);
}

fn count_in(labels: &[Option<String>], l: &String) -> (r: usize)
    ensures
        r as nat == label_count(labels@.map_values(|o: Option<String>| opt_chars(o)), l@),
{
    let ghost ls = labels@.map_values(|o: Option<String>| opt_chars(o));
    let mut c: usize = 0;
    let mut i: usize = 0;
    while i < labels.len()
        invariant
            i <= labels@.len(),
            c <= i,
            ls == labels@.map_values(|o: Option<String>| opt_chars(o)),
            c as nat == label_count(ls.subrange(0, i as int), l@),
        decreases labels@.len() - i,
    {
        assert(ls.subrange(0, i + 1).drop_last() =~= ls.subrange(0, i as int));
        match &labels[i] {
            Some(m) => {
                if *m == *l {
                    c = c + 1;
                }
            },
            None => {},
        }
        i = i + 1;
    }
    assert(ls.subrange(0, i as int) =~= ls);
    c
}

/// Picks the primary label of a list: the most frequent present label, ties
/// going to the label seen first.
pub fn primary_of(labels: &[Option<String>]) -> (r: Option<String>)
    ensures
        opt_chars(r) == primary_label(labels@.map_values(|o: Option<String>| opt_chars(o))),
{
    let ghost ls = labels@.map_values(|o: Option<String>| opt_chars(o));
    let mut best: Option<String> = None;
    let mut best_count: usize = 0;
    let ghost mut best_pos: int = 0;
    let mut i: usize = 0;
    while i < labels.len()
        invariant
            i <= labels@.len(),
            ls == labels@.map_values(|o: Option<String>| opt_chars(o)),
            best is None ==> forall|q: int| 0 <= q < i ==> ls[q] is None,
            best is Some ==> {
                &&& 0 <= best_pos < i
                &&& ls[best_pos] == opt_chars(best)
                &&& best_count as nat == label_count(ls, opt_chars(best)->0)
                &&& forall|q: int|
                    0 <= q < i && #[trigger] ls[q] is Some ==> label_count(ls, ls[q]->0)
                        < best_count || (label_count(ls, ls[q]->0) == best_count && best_pos
                        <= q)
            },
        decreases labels@.len() - i,
    {
        match &labels[i] {
            Some(m) => {
                let c = count_in(labels, m);
                if best.is_none() || c > best_count {
                    best = Some(m.clone());
                    best_count = c;
                    proof {
                        best_pos = i as int;
                    }
                }
            },
            None => {},
        }
        i = i + 1;
    }
    proof {
        if best is Some {
            assert(primary_at(ls, best_pos));
            let p = choose|p: int| primary_at(ls, p);
            lemma_primary_unique(ls, p, best_pos);
        } else {
            assert forall|p: int| !primary_at(ls, p) by {
                if 0 <= p < ls.len() {
                    assert(ls[p] is None);
                }
            }
        }
    }
    best
}


/// `eds` with `label` added at the end where `name` holds `key` and `label`
/// is not listed yet.
pub open spec fn add_edition_if(
    eds: Seq<Seq<char>>,
    name: Seq<char>,
    key: Seq<char>,
    label: Seq<char>,
) -> Seq<Seq<char>> {
    if contains(name, key) && !eds.contains(label) {
        eds.push(label)
    } else {
        eds
    }
}

/// The edition list after one more lower-case image name: each of Pro, Home,
/// Enterprise, Education whose keyword the name holds, and which is not listed
/// yet, is added in that order.
pub open spec fn edition_step(eds: Seq<Seq<char>>, name: Seq<char>) -> Seq<Seq<char>> {
    let a = add_edition_if(eds, name, "pro"@, "Pro"@);
    let b = add_edition_if(a, name, "home"@, "Home"@);
    let c = add_edition_if(b, name, "enterprise"@, "Enterprise"@);
    add_edition_if(c, name, "education"@, "Education"@)
}

/// The editions that a list of lower-case image names shows, first seen first.
pub open spec fn editions_of(names: Seq<Seq<char>>) -> Seq<Seq<char>>
    decreases names.len(),
{
    if names.len() == 0 {
        Seq::empty()
    } else {
        edition_step(editions_of(names.drop_last()), names.last())
    }
}

pub open spec fn strings_view(v: Seq<String>) -> Seq<Seq<char>> {
    v.map_values(|s: String| s@)
}

pub open spec fn char_vecs_view(v: Seq<Vec<char>>) -> Seq<Seq<char>> {
    v.map_values(|s: Vec<char>| s@)
}

fn listed(eds: &Vec<String>, label: &str) -> (r: bool)
    ensures
        r == strings_view(eds@).contains(label@),
{
    let wanted = label.to_owned();
    let mut k: usize = 0;
    while k < eds.len()
        invariant
            k <= eds@.len(),
            wanted@ == label@,
            forall|m: int| 0 <= m < k ==> eds@[m]@ != label@,
        decreases eds@.len() - k,
    {
        if eds[k] == wanted {
            assert(strings_view(eds@)[k as int] == label@);
            return true;
        }
        k = k + 1;
    }
    false
}

fn add_edition(eds: &mut Vec<String>, name: &[char], key: &str, label: &str)
    ensures
        strings_view(final(eds)@) == add_edition_if(strings_view(old(eds)@), name@, key@, label@),
{
    if has(name, key) && !listed(eds, label) {
        eds.push(label.to_owned());
        assert(strings_view(final(eds)@) =~= strings_view(old(eds)@).push(label@));
    }
}

fn has(t: &[char], p: &str) -> (r: bool)
    ensures
        r == contains(t@, p@),
{
    let pc = chars_of(p);
    contains_chars(t, pc.as_slice())
}

/// Collects the editions that lower-case image names show.
pub fn editions_from_lowered(names: &[Vec<char>]) -> (r: Vec<String>)
    ensures
        strings_view(r@) == editions_of(char_vecs_view(names@)),
{
    let ghost ns = char_vecs_view(names@);
    let mut eds: Vec<String> = Vec::new();
    let mut i: usize = 0;
    while i < names.len()
        invariant
            i <= names@.len(),
            ns == char_vecs_view(names@),
            strings_view(eds@) == editions_of(ns.subrange(0, i as int)),
        decreases names@.len() - i,
    {
        assert(ns.subrange(0, i + 1).drop_last() =~= ns.subrange(0, i as int));
        let n = names[i].as_slice();
        add_edition(&mut eds, n, "pro", "Pro");
        add_edition(&mut eds, n, "home", "Home");
        add_edition(&mut eds, n, "enterprise", "Enterprise");
        add_edition(&mut eds, n, "education", "Education");
        i = i + 1;
    }
    assert(ns.subrange(0, i as int) =~= ns);
    eds
}

/// The sum of a list of sizes.
pub open spec fn sizes_sum(v: Seq<u64>) -> nat
    decreases v.len(),
{
    if v.len() == 0 {
        0
    } else {
        sizes_sum(v.drop_last()) + v.last() as nat
    }
}

/// Adds up sizes, wrapping around at 2^64.
pub fn total_of(sizes: &[u64]) -> (r: u64)
    ensures
        r as nat == sizes_sum(sizes@) % 0x1_0000_0000_0000_0000,
{
    let mut total: u64 = 0;
    let mut i: usize = 0;
    while i < sizes.len()
        invariant
            i <= sizes@.len(),
            total as nat == sizes_sum(sizes@.subrange(0, i as int)) % 0x1_0000_0000_0000_0000,
        decreases sizes@.len() - i,
    {
        let ghost prev: int = sizes_sum(sizes@.subrange(0, i as int)) as int;
        assert(sizes@.subrange(0, i + 1).drop_last() =~= sizes@.subrange(0, i as int));
        let b = sizes[i];
        let s: u128 = total as u128 + b as u128;
        if s >= 0x1_0000_0000_0000_0000 {
            total = (s - 0x1_0000_0000_0000_0000) as u64;
        } else {
            total = s as u64;
        }
        proof {
            let m: int = 0x1_0000_0000_0000_0000;
            assert((prev % m + b as int) % m == (prev + b as int) % m) by {
                vstd::arithmetic::div_mod::lemma_add_mod_noop(prev, b as int, m);
                vstd::arithmetic::div_mod::lemma_small_mod(b as nat, m as nat);
            }
        }
        i = i + 1;
    }
    assert(sizes@.subrange(0, i as int) =~= sizes@);
    total
}

} // verus!
