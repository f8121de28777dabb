//! The order of the corpus files: paths are compared component by
//! component, a component being what stands between two slashes, and
//! components character by character.

use crate::corpus::CorpusEntry;
use crate::text::str_chars;
use vstd::prelude::*;

verus! {

/// Whether the character `x` comes before `y` in the comparison of
/// paths: the slash, which ends a component, comes before every other
/// character.
pub open spec fn char_before(x: char, y: char) -> bool {
    x != y && (x == '/' || (y != '/' && x < y))
}

/// Whether the path `a` is `b` or comes before `b`. At the first place
/// where the two differ, the path that ends there comes first; else the
/// path whose component ends there; else the path with the lesser
/// character.
pub open spec fn path_le(a: Seq<char>, b: Seq<char>) -> bool
    decreases a.len(),
{
    if a.len() == 0 {
        true
    } else if b.len() == 0 {
        false
    } else if a[0] != b[0] {
        char_before(a[0], b[0])
    } else {
        path_le(a.skip(1), b.skip(1))
    }
}

/// Of two paths one is not behind the other.
pub proof fn lemma_path_le_total(a: Seq<char>, b: Seq<char>)
    ensures
        path_le(a, b) || path_le(b, a),
    decreases a.len(),
{
    if a.len() > 0 && b.len() > 0 && a[0] == b[0] {
        lemma_path_le_total(a.skip(1), b.skip(1));
    }
}

/// What is not behind a path is not behind what that path is not behind.
pub proof fn lemma_path_le_transitive(a: Seq<char>, b: Seq<char>, c: Seq<char>)
    requires
        path_le(a, b),
        path_le(b, c),
    ensures
        path_le(a, c),
    decreases a.len(),
{
    if a.len() > 0 && b.len() > 0 && c.len() > 0 && a[0] == b[0] && b[0] == c[0] {
        lemma_path_le_transitive(a.skip(1), b.skip(1), c.skip(1));
    }
}

/// Two paths of which neither is behind the other are the same path.
pub proof fn lemma_path_le_antisymmetric(a: Seq<char>, b: Seq<char>)
    requires
        path_le(a, b),
        path_le(b, a),
    ensures
        a == b,
    decreases a.len(),
{
    if a.len() > 0 && b.len() > 0 {
        lemma_path_le_antisymmetric(a.skip(1), b.skip(1));
        assert(a =~= seq![a[0]] + a.skip(1));
        assert(b =~= seq![b[0]] + b.skip(1));
    } else {
        assert(a =~= b);
    }
}

/// Whether the path `a` is `b` or comes before `b`.
pub fn path_not_behind(a: &[char], b: &[char]) -> (le: bool)
    ensures
        le == path_le(a@, b@),
{
    let mut i: usize = 0;
    assert(a@.skip(0) =~= a@);
    assert(b@.skip(0) =~= b@);
    while i < a.len() && i < b.len()
        invariant
            i <= a.len(),
            i <= b.len(),
            path_le(a@, b@) == path_le(a@.skip(i as int), b@.skip(i as int)),
        decreases a.len() - i,
    {
        let x = a[i];
        let y = b[i];
        assert(a@.skip(i as int)[0] == x);
        assert(b@.skip(i as int)[0] == y);
        if x != y {
            return if x == '/' {
                true
            } else if y == '/' {
                false
            } else {
                x < y
            };
        }
        assert(a@.skip(i as int).skip(1) =~= a@.skip(i + 1));
        assert(b@.skip(i as int).skip(1) =~= b@.skip(i + 1));
        i += 1;
    }
    i == a.len()
}

/// Where `entry` belongs among `sorted`: behind every entry at the front
/// that is not behind it, so behind the entries with its own path.
pub open spec fn slot(sorted: Seq<CorpusEntry>, entry: CorpusEntry) -> int
    decreases sorted.len(),
{
    if sorted.len() == 0 || !path_le(sorted[0].path@, entry.path@) {
        0
    } else {
        1 + slot(sorted.skip(1), entry)
    }
}

/// The entries in the order of their paths; entries with the same path
/// keep the order in which they came.
pub open spec fn sorted_by_path(entries: Seq<CorpusEntry>) -> Seq<CorpusEntry>
    decreases entries.len(),
{
    if entries.len() == 0 {
        Seq::empty()
    } else {
        let before = sorted_by_path(entries.drop_last());
        before.insert(slot(before, entries.last()), entries.last())
    }
}

/// Whether no entry of `entries` is behind a later one.
pub open spec fn in_path_order(entries: Seq<CorpusEntry>) -> bool {
    forall|i: int, j: int|
        0 <= i < j < entries.len() ==> path_le(
            (#[trigger] entries[i]).path@,
            (#[trigger] entries[j]).path@,
        )
}

/// The slot of an entry lies within the sequence; what stands before it
/// is not behind the entry, and what stands at it is.
pub proof fn lemma_slot(sorted: Seq<CorpusEntry>, entry: CorpusEntry)
    ensures
        0 <= slot(sorted, entry) <= sorted.len(),
        forall|i: int|
            0 <= i < slot(sorted, entry) ==> path_le((#[trigger] sorted[i]).path@, entry.path@),
        slot(sorted, entry) < sorted.len() ==> !path_le(
            sorted[slot(sorted, entry)].path@,
            entry.path@,
        ),
    decreases sorted.len(),
{
    if !(sorted.len() == 0 || !path_le(sorted[0].path@, entry.path@)) {
        let rest = sorted.skip(1);
        lemma_slot(rest, entry);
        assert forall|i: int| 0 <= i < slot(sorted, entry) implies path_le(
            (#[trigger] sorted[i]).path@,
            entry.path@,
        ) by {
            if i > 0 {
                assert(sorted[i] == rest[i - 1]);
            }
        }
        if slot(sorted, entry) < sorted.len() {
            assert(sorted[slot(sorted, entry)] == rest[slot(rest, entry)]);
        }
    }
}

/// Sorting keeps every entry, as often as it came, and puts the entries
/// in the order of their paths.
pub proof fn lemma_sorted_by_path(entries: Seq<CorpusEntry>)
    ensures
        sorted_by_path(entries).len() == entries.len(),
        sorted_by_path(entries).to_multiset() == entries.to_multiset(),
        in_path_order(sorted_by_path(entries)),
    decreases entries.len(),
{
    broadcast use vstd::seq_lib::group_to_multiset_ensures;

    if entries.len() == 0 {
        assert(entries =~= Seq::empty());
    } else {
        let front = entries.drop_last();
        let entry = entries.last();
        lemma_sorted_by_path(front);
        let before = sorted_by_path(front);
        let k = slot(before, entry);
        lemma_slot(before, entry);
        let after = before.insert(k, entry);
        assert(entries =~= front.push(entry));
        assert(after.to_multiset() == before.to_multiset().insert(entry));
        assert(entries.to_multiset() =~= front.to_multiset().insert(entry));
        assert forall|i: int, j: int| 0 <= i < j < after.len() implies path_le(
            (#[trigger] after[i]).path@,
            (#[trigger] after[j]).path@,
        ) by {
            if j < k {
                assert(after[i] == before[i] && after[j] == before[j]);
            } else if j == k {
                assert(after[i] == before[i]);
            } else if i < k {
                // before[i] is not behind the entry, which is not behind
                // before[k], which is not behind before[j - 1]
                assert(after[i] == before[i] && after[j] == before[j - 1]);
                lemma_path_le_total(before[k].path@, entry.path@);
                lemma_path_le_transitive(before[i].path@, entry.path@, before[k].path@);
                if k < j - 1 {
                    assert(path_le(before[k].path@, before[j - 1].path@));
                    lemma_path_le_transitive(
                        before[i].path@,
                        before[k].path@,
                        before[j - 1].path@,
                    );
                }
            } else if i == k {
                assert(after[j] == before[j - 1]);
                lemma_path_le_total(before[k].path@, entry.path@);
                if k < j - 1 {
                    assert(path_le(before[k].path@, before[j - 1].path@));
                    lemma_path_le_transitive(entry.path@, before[k].path@, before[j - 1].path@);
                }
            } else {
                assert(after[i] == before[i - 1] && after[j] == before[j - 1]);
            }
        }
    }
}

/// Puts the entries in the order of their paths.
pub fn sort_by_path(entries: Vec<CorpusEntry>) -> (sorted: Vec<CorpusEntry>)
    ensures
        sorted@ == sorted_by_path(entries@),
{
    let mut sorted: Vec<CorpusEntry> = Vec::new();
    let ghost items = entries@;
    assert(items.take(0) =~= Seq::<CorpusEntry>::empty());
    for entry in iter: entries
        invariant
            iter.seq() == items,
            sorted@ == sorted_by_path(items.take(iter.index() as int)),
    {
        proof {
            assert(items.take(iter.index() + 1).drop_last() =~= items.take(iter.index() as int));
            lemma_sorted_by_path(items.take(iter.index() as int));
        }
        let path = str_chars(entry.path.as_str());
        let mut k: usize = 0;
        assert(sorted@.skip(0) =~= sorted@);
        while k < sorted.len() && path_not_behind(
            str_chars(sorted[k].path.as_str()).as_slice(),
            path.as_slice(),
        )
            invariant
                k <= sorted@.len(),
                path@ == entry.path@,
                slot(sorted@, entry) == k + slot(sorted@.skip(k as int), entry),
            decreases sorted@.len() - k,
        {
            assert(sorted@.skip(k as int)[0] == sorted@[k as int]);
            assert(sorted@.skip(k as int).skip(1) =~= sorted@.skip(k + 1));
            k += 1;
        }
        assert(k < sorted@.len() ==> sorted@.skip(k as int)[0] == sorted@[k as int]);
        sorted.insert(k, entry);
    }
    assert(items.take(items.len() as int) =~= items);
    sorted
}

} // verus!
