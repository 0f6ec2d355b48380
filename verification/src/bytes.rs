//! Searching and splitting byte strings.

use vstd::prelude::*;
use vstd::slice::slice_subrange;

verus! {

/// `needle` stands in `hay` at position `i`.
pub open spec fn matches_at(hay: Seq<u8>, needle: Seq<u8>, i: int) -> bool {
    &&& 0 <= i
    &&& i + needle.len() <= hay.len()
    &&& hay.subrange(i, i + needle.len()) == needle
}

/// Position `i` is the first at which `needle` stands in `hay`.
pub open spec fn first_match(hay: Seq<u8>, needle: Seq<u8>, i: int) -> bool {
    &&& matches_at(hay, needle, i)
    &&& forall|j: int| 0 <= j < i ==> !#[trigger] matches_at(hay, needle, j)
}

/// `needle` stands somewhere in `hay`.
pub open spec fn occurs(hay: Seq<u8>, needle: Seq<u8>) -> bool {
    exists|i: int| #[trigger] matches_at(hay, needle, i)
}

/// Where `needle` first stands in `hay`.
pub open spec fn find_spec(hay: Seq<u8>, needle: Seq<u8>) -> Option<int> {
    if occurs(hay, needle) {
        Some(choose|i: int| #[trigger] first_match(hay, needle, i))
    } else {
        None
    }
}

/// The first match is unique, so `find_spec` gives it.
pub proof fn find_spec_is_first(hay: Seq<u8>, needle: Seq<u8>, i: int)
    requires
        first_match(hay, needle, i),
    ensures
        find_spec(hay, needle) == Some(i),
{
    assert(matches_at(hay, needle, i));
    let k = choose|k: int| #[trigger] first_match(hay, needle, k);
    assert(first_match(hay, needle, k));
    assert(!(k < i));
    assert(!(i < k));
}

/// Wherever there is a match there is a first one.
pub proof fn occurs_has_first(hay: Seq<u8>, needle: Seq<u8>)
    requires
        occurs(hay, needle),
    ensures
        find_spec(hay, needle) matches Some(i) && first_match(hay, needle, i),
{
    let i = choose|i: int| #[trigger] matches_at(hay, needle, i);
    let k = least_match(hay, needle, i);
    assert(first_match(hay, needle, k));
}

proof fn least_match(hay: Seq<u8>, needle: Seq<u8>, i: int) -> (k: int)
    requires
        matches_at(hay, needle, i),
    ensures
        first_match(hay, needle, k),
    decreases i,
{
    if exists|j: int| 0 <= j < i && #[trigger] matches_at(hay, needle, j) {
        let j = choose|j: int| 0 <= j < i && #[trigger] matches_at(hay, needle, j);
        least_match(hay, needle, j)
    } else {
        i
    }
}

/// Whether `needle` stands in `hay` at position `i`.
fn match_here(hay: &[u8], needle: &[u8], i: usize) -> (r: bool)
    requires
        i + needle@.len() <= hay@.len(),
    ensures
        r == matches_at(hay@, needle@, i as int),
{
    let len: usize = hay.len();
    let mut k: usize = 0;
    while k < needle.len()
        invariant
            k <= needle@.len(),
            i + needle@.len() <= hay@.len(),
            len == hay@.len(),
            forall|m: int| 0 <= m < k ==> hay@[i + m] == needle@[m],
        decreases needle@.len() - k,
    {
        if hay[i + k] != needle[k] {
            assert(hay@.subrange(i as int, i + needle@.len())[k as int] != needle@[k as int]);
            return false;
        }
        k = k + 1;
    }
    assert(hay@.subrange(i as int, i + needle@.len()) =~= needle@);
    true
}

/// Finds the first position at which `needle` stands in `hay`.
pub fn find(hay: &[u8], needle: &[u8]) -> (r: Option<usize>)
    ensures
        match r {
            Some(i) => find_spec(hay@, needle@) == Some(i as int) && first_match(
                hay@,
                needle@,
                i as int,
            ),
            None => find_spec(hay@, needle@) is None && !occurs(hay@, needle@),
        },
{
    if needle.len() > hay.len() {
        return None;
    }
    let last: usize = hay.len() - needle.len();
    let mut i: usize = 0;
    loop
        invariant
            i <= last,
            last + needle@.len() == hay@.len(),
            forall|j: int| 0 <= j < i ==> !#[trigger] matches_at(hay@, needle@, j),
        decreases last - i,
    {
        if match_here(hay, needle, i) {
            proof {
                find_spec_is_first(hay@, needle@, i as int);
            }
            return Some(i);
        }
        if i == last {
            return None;
        }
        i = i + 1;
    }
}

/// The text before the first `sep` and the text after it.
pub open spec fn split_once_spec(s: Seq<u8>, sep: u8) -> Option<(Seq<u8>, Seq<u8>)> {
    match s.index_of_first(sep) {
        Some(i) => Some((s.take(i), s.skip(i + 1))),
        None => None,
    }
}

/// Splits `s` at the first `sep`, which neither half keeps.
pub fn split_once(s: &[u8], sep: u8) -> (r: Option<(&[u8], &[u8])>)
    ensures
        match r {
            Some((a, b)) => split_once_spec(s@, sep) == Some((a@, b@)),
            None => split_once_spec(s@, sep) is None,
        },
{
    proof {
        s@.index_of_first_ensures(sep);
    }
    let mut i: usize = 0;
    while i < s.len()
        invariant
            i <= s@.len(),
            forall|j: int| 0 <= j < i ==> s@[j] != sep,
            match s@.index_of_first(sep) {
                Some(index) => {
                    &&& 0 <= index < s@.len()
                    &&& s@[index] == sep
                    &&& forall|j: int| 0 <= j < index < s@.len() ==> s@[j] != sep
                },
                None => !s@.contains(sep),
            },
        decreases s@.len() - i,
    {
        if s[i] == sep {
            assert(s@.contains(sep));
            assert(s@.index_of_first(sep) == Some(i as int));
            let a: &[u8] = slice_subrange(s, 0, i);
            let b: &[u8] = slice_subrange(s, i + 1, s.len());
            assert(a@ =~= s@.take(i as int));
            assert(b@ =~= s@.skip(i + 1));
            return Some((a, b));
        }
        i = i + 1;
    }
    assert(!s@.contains(sep));
    None
}

/// All the parts of `s` between one `sep` and the next; one part where there is no `sep`.
pub open spec fn split_spec(s: Seq<u8>, sep: u8) -> Seq<Seq<u8>>
    decreases s.len(),
    via split_spec_decreases
{
    match split_once_spec(s, sep) {
        Some((a, b)) => seq![a] + split_spec(b, sep),
        None => seq![s],
    }
}

#[via_fn]
proof fn split_spec_decreases(s: Seq<u8>, sep: u8) {
    s.index_of_first_ensures(sep);
}

/// A text that was joined from two around a separator splits into the two again, where the
/// first does not hold the separator.
pub proof fn split_once_joined(a: Seq<u8>, sep: u8, b: Seq<u8>)
    requires
        !a.contains(sep),
    ensures
        split_once_spec(a.push(sep) + b, sep) == Some((a, b)),
{
    let s = a.push(sep) + b;
    s.index_of_first_ensures(sep);
    assert(s[a.len() as int] == sep);
    assert(s.contains(sep));
    let i = s.index_of_first(sep)->0;
    if i < a.len() {
        assert(s[i] == a[i]);
        assert(a.contains(sep));
    }
    assert(i == a.len());
    assert(s.take(i) =~= a);
    assert(s.skip(i + 1) =~= b);
}

/// A text without the separator does not split.
pub proof fn split_once_absent(a: Seq<u8>, sep: u8)
    requires
        !a.contains(sep),
    ensures
        split_once_spec(a, sep) is None,
{
    a.index_of_first_ensures(sep);
}

/// What `find` gives, byte for byte: the needle begins the rest of the text there and at no
/// earlier place. Where it gives nothing, the needle begins the rest at no place at all.
pub proof fn found_where_rest_begins_with_needle(hay: Seq<u8>, needle: Seq<u8>)
    ensures
        match find_spec(hay, needle) {
            Some(i) => {
                &&& 0 <= i <= hay.len()
                &&& needle.is_prefix_of(hay.skip(i))
                &&& forall|j: int| 0 <= j < i ==> !needle.is_prefix_of(#[trigger] hay.skip(j))
            },
            None => forall|j: int|
                0 <= j <= hay.len() ==> !needle.is_prefix_of(#[trigger] hay.skip(j)),
        },
{
    assert forall|j: int| 0 <= j <= hay.len() implies needle.is_prefix_of(#[trigger] hay.skip(j))
        == matches_at(hay, needle, j) by {
        if j + needle.len() <= hay.len() {
            assert(hay.skip(j).subrange(0, needle.len() as int) =~= hay.subrange(
                j,
                j + needle.len(),
            ));
        }
    }
    if occurs(hay, needle) {
        occurs_has_first(hay, needle);
    }
}

/// The two halves with the separator between them are the whole text, and the first half does
/// not hold the separator. A text that holds the separator always splits.
pub proof fn halves_make_the_text(s: Seq<u8>, sep: u8)
    ensures
        match split_once_spec(s, sep) {
            Some((a, b)) => s == a + seq![sep] + b && !a.contains(sep),
            None => !s.contains(sep),
        },
{
    s.index_of_first_ensures(sep);
    if let Some((a, b)) = split_once_spec(s, sep) {
        assert(s =~= a + seq![sep] + b);
        assert forall|j: int| 0 <= j < a.len() implies a[j] != sep by {
            assert(a[j] == s[j]);
        }
    }
}

/// The parts of a text that is joined from a part without separator and a rest are that part
/// and the parts of the rest; a text without separator is its own only part.
pub proof fn parts_of_joined_text(a: Seq<u8>, sep: u8, rest: Seq<u8>)
    requires
        !a.contains(sep),
    ensures
        split_spec(a, sep) == seq![a],
        split_spec(a + seq![sep] + rest, sep) == seq![a] + split_spec(rest, sep),
{
    split_once_absent(a, sep);
    split_once_joined(a, sep, rest);
    assert(a + seq![sep] + rest =~= a.push(sep) + rest);
}

} // verus!
