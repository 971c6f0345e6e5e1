//! Path joining, `PATH`-style lists and the ordering of directory names.

use vstd::prelude::*;
use crate::text::{chars_of, join_strings, join_with, push_char, push_str, split_chars, split_on, views};

verus! {

/// `Path::join` on Unix: an absolute `name` replaces `base`; otherwise a
/// `/` is put between them unless `base` is empty or already ends in one.
pub open spec fn spec_path_join(base: Seq<char>, name: Seq<char>) -> Seq<char> {
    if name.len() > 0 && name[0] == '/' {
        name
    } else if base.len() == 0 || base.last() == '/' {
        base + name
    } else {
        base + seq!['/'] + name
    }
}

pub fn path_join(base: &str, name: &str) -> (r: String)
    ensures
        r@ == spec_path_join(base@, name@),
{
    let b = chars_of(base);
    let n = chars_of(name);
    let mut r = String::new();
    if n.len() > 0 && n[0] == '/' {
        push_str(&mut r, name);
        return r;
    }
    push_str(&mut r, base);
    if b.len() > 0 && b[b.len() - 1] != '/' {
        push_char(&mut r, '/');
    }
    push_str(&mut r, name);
    r
}

/// The entries of a `PATH`-style list (`std::env::split_paths` on Unix):
/// the pieces between colons, empty ones included.
pub open spec fn spec_split_paths(list: Seq<char>) -> Seq<Seq<char>> {
    split_on(list, ':')
}

pub fn split_paths(list: &str) -> (r: Vec<String>)
    ensures
        views(r@) == spec_split_paths(list@),
{
    let v = chars_of(list);
    assert(v@.skip(0) == v@);
    split_chars(&v, 0, ':')
}

/// `std::env::join_paths` on Unix: the entries joined with colons, refused
/// when an entry holds a colon itself.
pub open spec fn spec_join_paths(entries: Seq<Seq<char>>) -> Option<Seq<char>> {
    if exists|i: int| 0 <= i < entries.len() && #[trigger] entries[i].contains(':') {
        None
    } else {
        Some(join_with(entries, ":"@))
    }
}

pub fn join_paths(entries: &Vec<String>) -> (r: Option<String>)
    ensures
        match r {
            Some(s) => spec_join_paths(views(entries@)) == Some(s@),
            None => spec_join_paths(views(entries@)) is None,
        },
{
    let mut i: usize = 0;
    while i < entries.len()
        invariant
            i <= entries@.len(),
            forall|k: int| 0 <= k < i ==> !(#[trigger] views(entries@)[k]).contains(':'),
        decreases entries@.len() - i,
    {
        let v = chars_of(entries[i].as_str());
        assert(views(entries@)[i as int] == entries@[i as int]@);
        let mut j: usize = 0;
        while j < v.len()
            invariant
                i < entries@.len(),
                j <= v@.len(),
                v@ == entries@[i as int]@,
                v@ == views(entries@)[i as int],
                forall|k: int| 0 <= k < j ==> v@[k] != ':',
            decreases v@.len() - j,
        {
            if v[j] == ':' {
                assert(views(entries@)[i as int][j as int] == ':');
                assert(views(entries@)[i as int].contains(':'));
                return None;
            }
            j = j + 1;
        }
        assert(!views(entries@)[i as int].contains(':'));
        assert forall|k: int| 0 <= k < i + 1 implies !(#[trigger] views(entries@)[k]).contains(':') by {
        }
        i = i + 1;
    }
    assert(views(entries@).skip(0) == views(entries@));
    Some(join_strings(entries, 0, ":"))
}

/// Code-point lexicographic order on character sequences, which is the byte
/// order of their UTF-8 encodings and so the order of `OsStr` file names.
pub open spec fn char_seq_lt(a: Seq<char>, b: Seq<char>) -> bool
    decreases a.len(),
{
    if a.len() == 0 {
        b.len() > 0
    } else if b.len() == 0 {
        false
    } else if a[0] != b[0] {
        a[0] < b[0]
    } else {
        char_seq_lt(a.drop_first(), b.drop_first())
    }
}

pub proof fn lemma_char_seq_lt_trichotomy(a: Seq<char>, b: Seq<char>)
    ensures
        char_seq_lt(a, b) || a == b || char_seq_lt(b, a),
        !(char_seq_lt(a, b) && char_seq_lt(b, a)),
        !char_seq_lt(a, a),
    decreases a.len(),
{
    if a.len() > 0 && b.len() > 0 && a[0] == b[0] {
        lemma_char_seq_lt_trichotomy(a.drop_first(), b.drop_first());
        if a.drop_first() == b.drop_first() {
            assert(a =~= seq![a[0]] + a.drop_first());
            assert(b =~= seq![b[0]] + b.drop_first());
        }
    }
    if a.len() > 0 {
        lemma_char_seq_lt_trichotomy(a.drop_first(), a.drop_first());
    }
    if a.len() == 0 && b.len() == 0 {
        assert(a =~= b);
    }
}

pub proof fn lemma_char_seq_lt_transitive(a: Seq<char>, b: Seq<char>, c: Seq<char>)
    requires
        char_seq_lt(a, b),
        char_seq_lt(b, c),
    ensures
        char_seq_lt(a, c),
    decreases a.len(),
{
    if a.len() > 0 && b.len() > 0 && c.len() > 0 && a[0] == b[0] && b[0] == c[0] {
        lemma_char_seq_lt_transitive(a.drop_first(), b.drop_first(), c.drop_first());
    }
}

fn chars_lt(a: &Vec<char>, b: &Vec<char>) -> (r: bool)
    ensures
        r == char_seq_lt(a@, b@),
{
    let mut i: usize = 0;
    assert(a@.skip(0) == a@);
    assert(b@.skip(0) == b@);
    while i < a.len() && i < b.len() && a[i] == b[i]
        invariant
            i <= a@.len(),
            i <= b@.len(),
            char_seq_lt(a@, b@) == char_seq_lt(a@.skip(i as int), b@.skip(i as int)),
        decreases a@.len() - i,
    {
        assert(a@.skip(i as int).drop_first() == a@.skip(i + 1));
        assert(b@.skip(i as int).drop_first() == b@.skip(i + 1));
        i = i + 1;
    }
    if i == a.len() {
        i < b.len()
    } else if i == b.len() {
        false
    } else {
        a[i] < b[i]
    }
}

/// Sorted from greatest to least.
pub open spec fn sorted_descending(s: Seq<Seq<char>>) -> bool {
    forall|i: int, j: int| 0 <= i < j < s.len() ==> !char_seq_lt(#[trigger] s[i], #[trigger] s[j])
}

/// The names in descending order (`sort` then `reverse`).
pub fn sort_descending(names: &Vec<String>) -> (r: Vec<String>)
    ensures
        sorted_descending(views(r@)),
        views(r@).to_multiset() == views(names@).to_multiset(),
{
    let mut r: Vec<String> = Vec::new();
    let mut i: usize = 0;
    assert(views(names@).take(0) == Seq::<Seq<char>>::empty());
    assert(views(r@) == Seq::<Seq<char>>::empty());
    while i < names.len()
        invariant
            i <= names@.len(),
            sorted_descending(views(r@)),
            views(r@).to_multiset() == views(names@).take(i as int).to_multiset(),
        decreases names@.len() - i,
    {
        let x = chars_of(names[i].as_str());
        let mut p: usize = 0;
        while p < r.len() && !chars_lt(&chars_of(r[p].as_str()), &x)
            invariant
                p <= r@.len(),
                x@ == names@[i as int]@,
                forall|k: int| 0 <= k < p ==> !char_seq_lt(#[trigger] views(r@)[k], x@),
            decreases r@.len() - p,
        {
            p = p + 1;
        }
        let ghost before = views(r@);
        let mut copy = String::new();
        push_str(&mut copy, names[i].as_str());
        r.insert(p, copy);
        proof {
            let after = views(r@);
            assert(after == before.insert(p as int, x@));
            assert forall|a: int, b: int| 0 <= a < b < after.len() implies !char_seq_lt(
                #[trigger] after[a],
                #[trigger] after[b],
            ) by {
                if a < p && b == p {
                } else if a == p && b > p {
                    let y = before[b - 1];
                    let top = before[p as int];
                    lemma_char_seq_lt_trichotomy(top, y);
                    lemma_char_seq_lt_trichotomy(y, x@);
                    if char_seq_lt(y, top) {
                        lemma_char_seq_lt_transitive(y, top, x@);
                    }
                } else if a < p && b > p {
                    assert(after[a] == before[a]);
                    assert(after[b] == before[b - 1]);
                } else if b < p {
                    assert(after[a] == before[a]);
                    assert(after[b] == before[b]);
                } else {
                    assert(after[a] == before[a - 1]);
                    assert(after[b] == before[b - 1]);
                }
            }
            assert(views(names@).take(i + 1) == views(names@).take(i as int).push(x@));
            vstd::seq_lib::to_multiset_insert(before, p as int, x@);
            vstd::seq_lib::to_multiset_build(views(names@).take(i as int), x@);
        }
        i = i + 1;
    }
    assert(views(names@).take(names@.len() as int) == views(names@));
    r
}

} // verus!
