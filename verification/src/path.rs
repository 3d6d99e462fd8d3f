//! Paths into the archive: how a path falls into segments, and when a
//! segment names an entry.

use crate::entry::{name_text, Entry, EntryView, views};
use crate::scan::{lead, lemma_lead_holds, lemma_lead_is};
use crate::text::{
    eq_ignore_ascii_case, lemma_ignoring_case_is_equivalence, same_ignoring_ascii_case,
};
use vstd::prelude::*;
use vstd::string::StrSliceExecFns;

verus! {

/// How many characters of `path` come before its first `/`.
pub open spec fn slash_index(path: Seq<char>) -> nat {
    lead(path, |c: char| c == '/')
}

/// The segments of a path: the pieces between its `/` characters, in order,
/// without the empty ones.
pub open spec fn segments(path: Seq<char>) -> Seq<Seq<char>>
    decreases path.len(),
{
    if path.len() == 0 {
        Seq::empty()
    } else {
        let cut = slash_index(path);
        let rest = if cut < path.len() {
            segments(path.skip(cut as int + 1))
        } else {
            Seq::empty()
        };
        if cut == 0 {
            rest
        } else {
            seq![path.take(cut as int)] + rest
        }
    }
}

/// The texts of a list of string slices, in order.
pub open spec fn texts(parts: Seq<&str>) -> Seq<Seq<char>> {
    parts.map_values(|part: &str| part@)
}

/// The segment names the entry: it is the entry's name, but for the case of
/// ASCII letters.
pub open spec fn names(segment: Seq<char>, entry: EntryView) -> bool {
    same_ignoring_ascii_case(name_text(entry.name), segment)
}

/// How many of `children` come before the first one that `segment` names; all
/// of them where it names none.
pub open spec fn match_index(children: Seq<EntryView>, segment: Seq<char>) -> nat {
    lead(children, |child: EntryView| names(segment, child))
}

/// The first of `children` that `segment` names, if there is one.
pub open spec fn first_match(children: Seq<EntryView>, segment: Seq<char>) -> Option<EntryView> {
    let at = match_index(children, segment);
    if at < children.len() {
        Some(children[at as int])
    } else {
        None
    }
}

/// Splits a path at its `/` characters and drops the empty pieces, so that
/// `/a//b/` gives `a` and `b`.
pub fn split_path<'a>(path: &'a str) -> (parts: Vec<&'a str>)
    ensures
        texts(parts@) == segments(path@),
{
    let n: usize = path.unicode_len();
    let mut parts: Vec<&'a str> = Vec::new();
    let mut start: usize = 0;
    let mut i: usize = 0;
    assert(texts(parts@) =~= Seq::<Seq<char>>::empty());
    assert(path@.skip(0) =~= path@);
    while i < n
        invariant
            start <= i <= n,
            n == path@.len(),
            forall|j: int| start <= j < i ==> path@[j] != '/',
            segments(path@) == texts(parts@) + segments(path@.skip(start as int)),
        decreases n - i,
    {
        if path.get_char(i) == '/' {
            let ghost before = texts(parts@);
            proof {
                lemma_segments_at_slash(path@, start as int, i as int);
            }
            if i > start {
                parts.push(path.substring_char(start, i));
                assert(texts(parts@) =~= before + seq![path@.subrange(start as int, i as int)]);
            }
            assert(segments(path@) =~= texts(parts@) + segments(path@.skip(i + 1)));
            start = i + 1;
        }
        i += 1;
    }
    let ghost before = texts(parts@);
    proof {
        lemma_segments_without_slash(path@, start as int);
    }
    if n > start {
        parts.push(path.substring_char(start, n));
        assert(texts(parts@) =~= before + seq![path@.subrange(start as int, n as int)]);
    }
    assert(segments(path@) =~= texts(parts@));
    parts
}

/// The segments of what follows `start`, where the first `/` after `start` is
/// at `slash`: the piece between the two, unless it is empty, and then the
/// segments of what follows the `/`.
proof fn lemma_segments_at_slash(path: Seq<char>, start: int, slash: int)
    requires
        0 <= start <= slash < path.len(),
        forall|j: int| start <= j < slash ==> path[j] != '/',
        path[slash] == '/',
    ensures
        segments(path.skip(start)) == if slash > start {
            seq![path.subrange(start, slash)] + segments(path.skip(slash + 1))
        } else {
            segments(path.skip(slash + 1))
        },
{
    let tail = path.skip(start);
    lemma_lead_is(tail, |c: char| c == '/', slash - start);
    assert(tail.skip(slash - start + 1) =~= path.skip(slash + 1));
    assert(tail.take(slash - start) =~= path.subrange(start, slash));
}

/// The segments of what follows `start`, where no `/` follows `start`: all of
/// it as one segment, unless it is empty.
proof fn lemma_segments_without_slash(path: Seq<char>, start: int)
    requires
        0 <= start <= path.len(),
        forall|j: int| start <= j < path.len() ==> path[j] != '/',
    ensures
        segments(path.skip(start)) == if start < path.len() {
            seq![path.subrange(start, path.len() as int)]
        } else {
            Seq::<Seq<char>>::empty()
        },
{
    let tail = path.skip(start);
    lemma_lead_is(tail, |c: char| c == '/', tail.len() as int);
    assert(tail.take(tail.len() as int) =~= path.subrange(start, path.len() as int));
    if start < path.len() {
        assert(segments(tail) =~= seq![path.subrange(start, path.len() as int)]);
    }
}

/// Whether `segment` names `entry`, without regard to the case of ASCII
/// letters.
pub fn names_entry(segment: &str, entry: &Entry) -> (yes: bool)
    ensures
        yes == names(segment@, entry@),
{
    let name = entry.name();
    eq_ignore_ascii_case(name.as_str(), segment)
}

/// The first of `children` that `segment` names, if there is one.
pub fn find_child(children: &Vec<Entry>, segment: &str) -> (found: Option<Entry>)
    ensures
        found is Some <==> first_match(views(children@), segment@) is Some,
        found matches Some(child) ==> Some(child@) == first_match(views(children@), segment@),
{
    let ghost all = views(children@);
    let mut i: usize = 0;
    while i < children.len()
        invariant
            0 <= i <= children.len(),
            all == views(children@),
            forall|j: int| 0 <= j < i ==> !names(segment@, #[trigger] all[j]),
        decreases children.len() - i,
    {
        if names_entry(segment, &children[i]) {
            proof {
                lemma_lead_is(all, |child: EntryView| names(segment@, child), i as int);
            }
            return Some(children[i]);
        }
        i += 1;
    }
    proof {
        lemma_lead_is(all, |child: EntryView| names(segment@, child), i as int);
    }
    None
}

/// Which entry a segment names does not depend on the case of the segment's
/// ASCII letters: two segments that differ in nothing else name the same
/// entries, and pick the same child from any list.
pub proof fn lemma_names_ignores_case(
    a: Seq<char>,
    b: Seq<char>,
    entry: EntryView,
    children: Seq<EntryView>,
)
    requires
        same_ignoring_ascii_case(a, b),
    ensures
        names(a, entry) == names(b, entry),
        first_match(children, a) == first_match(children, b),
{
    assert forall|child: EntryView| names(a, child) == names(b, child) by {
        lemma_ignoring_case_is_equivalence(name_text(child.name), a, b);
        lemma_ignoring_case_is_equivalence(name_text(child.name), b, a);
        lemma_ignoring_case_is_equivalence(a, b, a);
    }
    let by_a = |child: EntryView| names(a, child);
    let by_b = |child: EntryView| names(b, child);
    assert(by_a =~= by_b);
}

/// What `first_match` picks: a child that the segment names, with no such
/// child before it; and nothing only where the segment names no child.
pub proof fn lemma_first_match(children: Seq<EntryView>, segment: Seq<char>)
    ensures
        match first_match(children, segment) {
            Some(child) => {
                let at = match_index(children, segment) as int;
                &&& 0 <= at < children.len()
                &&& child == children[at]
                &&& names(segment, child)
                &&& forall|i: int| 0 <= i < at ==> !names(segment, #[trigger] children[i])
            },
            None => forall|i: int|
                0 <= i < children.len() ==> !names(segment, #[trigger] children[i]),
        },
{
    lemma_lead_holds(children, |child: EntryView| names(segment, child));
}

} // verus!
