//! Byte strings: the text of a literal, prefixes, suffixes, occurrences, and text cut to a buffer.

use vstd::prelude::*;
use vstd::string::*;

verus! {

/// The bytes of a string.
pub open spec fn text(s: &str) -> Seq<u8> {
    s.spec_bytes()
}

/// The bytes of an ASCII string are the codes of its characters.
pub proof fn ascii_text(s: &str)
    requires
        is_ascii(s),
    ensures
        text(s) == Seq::new(s@.len(), |i: int| s@[i] as u8),
{
}

/// The bytes of a string.
pub fn bytes<'a>(s: &'a str) -> (r: &'a [u8])
    ensures
        r@ == text(s),
{
    s.as_bytes()
}

/// What is left of `s` in a buffer of `room` bytes: `s` itself, or its first `room` bytes.
pub open spec fn clip(s: Seq<u8>, room: nat) -> Seq<u8> {
    if s.len() <= room {
        s
    } else {
        s.take(room as int)
    }
}

/// `pattern` stands in `s` from index `i` on.
pub open spec fn occurs_at(s: Seq<u8>, pattern: Seq<u8>, i: int) -> bool {
    &&& 0 <= i
    &&& i + pattern.len() <= s.len()
    &&& s.subrange(i, i + pattern.len()) == pattern
}

/// `pattern` stands somewhere in `s`.
pub open spec fn occurs(s: Seq<u8>, pattern: Seq<u8>) -> bool {
    exists|i: int| occurs_at(s, pattern, i)
}

/// The first index at which `pattern` stands in `s`, if it does.
pub open spec fn index_of(s: Seq<u8>, pattern: Seq<u8>) -> int {
    choose|i: int|
        #![trigger occurs_at(s, pattern, i)]
        occurs_at(s, pattern, i) && forall|j: int| 0 <= j < i ==> !occurs_at(s, pattern, j)
}

/// A buffer that text is cut to holds the start of the text: all of it, or as much as there is room
/// for.
pub proof fn clip_keeps_the_start(s: Seq<u8>, room: nat)
    ensures
        clip(s, room).is_prefix_of(s),
        clip(s, room).len() == if s.len() <= room {
            s.len()
        } else {
            room
        },
{
}

/// `pattern` stands at an index exactly when each of its bytes is there.
pub proof fn stands_byte_by_byte(s: Seq<u8>, pattern: Seq<u8>, i: int)
    ensures
        occurs_at(s, pattern, i) <==> {
            &&& 0 <= i
            &&& i + pattern.len() <= s.len()
            &&& forall|j: int| 0 <= j < pattern.len() ==> s[i + j] == #[trigger] pattern[j]
        },
{
    if 0 <= i && i + pattern.len() <= s.len() {
        let part = s.subrange(i, i + pattern.len());
        if part == pattern {
            assert forall|j: int| 0 <= j < pattern.len() implies s[i + j]
                == #[trigger] pattern[j] by {
                assert(part[j] == pattern[j]);
            }
        }
        if forall|j: int| 0 <= j < pattern.len() ==> s[i + j] == #[trigger] pattern[j] {
            assert(part =~= pattern);
        }
    }
}

/// Where `pattern` stands at all, its index is one at which it stands, and it stands at no smaller
/// one.
pub proof fn index_of_is_the_first(s: Seq<u8>, pattern: Seq<u8>, i: int)
    requires
        occurs_at(s, pattern, i),
    ensures
        occurs(s, pattern),
        occurs_at(s, pattern, index_of(s, pattern)),
        0 <= index_of(s, pattern) <= i,
{
    let first = least_index(s, pattern, i);
    first_is_index_of(s, pattern, first);
}

/// The smallest index at which `pattern` stands, given one at which it does.
proof fn least_index(s: Seq<u8>, pattern: Seq<u8>, i: int) -> (first: int)
    requires
        occurs_at(s, pattern, i),
    ensures
        first <= i,
        occurs_at(s, pattern, first),
        forall|j: int| 0 <= j < first ==> !occurs_at(s, pattern, j),
    decreases i,
{
    if exists|j: int| 0 <= j < i && occurs_at(s, pattern, j) {
        let j = choose|j: int| 0 <= j < i && occurs_at(s, pattern, j);
        least_index(s, pattern, j)
    } else {
        i
    }
}

/// An index at which `pattern` stands, and before which it stands nowhere, is the first one.
pub proof fn first_is_index_of(s: Seq<u8>, pattern: Seq<u8>, i: int)
    requires
        occurs_at(s, pattern, i),
        forall|j: int| 0 <= j < i ==> !occurs_at(s, pattern, j),
    ensures
        i == index_of(s, pattern),
{
    assert(occurs_at(s, pattern, index_of(s, pattern)));
}

/// Filling a buffer piece by piece keeps the same bytes as filling it once with all the pieces:
/// what did not fit is lost, and nothing that comes later takes its place.
pub proof fn clip_in_pieces(a: Seq<u8>, b: Seq<u8>, room: nat)
    ensures
        clip(clip(a, room) + b, room) == clip(a + b, room),
{
    assert(clip(clip(a, room) + b, room) =~= clip(a + b, room));
}

/// Whether `pattern` stands in `s` from index `at` on.
pub fn stands_at(s: &[u8], pattern: &[u8], at: usize) -> (r: bool)
    ensures
        r == occurs_at(s@, pattern@, at as int),
{
    if at > s.len() || s.len() - at < pattern.len() {
        return false;
    }
    let mut k: usize = 0;
    while k < pattern.len()
        invariant
            k <= pattern.len(),
            at + pattern@.len() <= s.len(),
            forall|j: int| 0 <= j < k ==> s@[at + j] == pattern@[j],
        decreases pattern@.len() - k,
    {
        if s[at + k] != pattern[k] {
            assert(s@.subrange(at as int, at + pattern@.len())[k as int] != pattern@[k as int]);
            return false;
        }
        k = k + 1;
    }
    assert(s@.subrange(at as int, at + pattern@.len()) =~= pattern@);
    true
}

/// Whether `s` starts with `prefix`.
pub fn begins_with(s: &[u8], prefix: &[u8]) -> (r: bool)
    ensures
        r == prefix@.is_prefix_of(s@),
{
    stands_at(s, prefix, 0)
}

/// Whether `s` ends with `suffix`.
pub fn closes_with(s: &[u8], suffix: &[u8]) -> (r: bool)
    ensures
        r == suffix@.is_suffix_of(s@),
{
    if s.len() < suffix.len() {
        return false;
    }
    stands_at(s, suffix, s.len() - suffix.len())
}

/// The first index at which `pattern` stands in `s`.
pub fn find(s: &[u8], pattern: &[u8]) -> (r: Option<usize>)
    ensures
        match r {
            Some(i) => {
                &&& occurs_at(s@, pattern@, i as int)
                &&& forall|j: int| 0 <= j < i ==> !occurs_at(s@, pattern@, j)
                &&& i == index_of(s@, pattern@)
            },
            None => !occurs(s@, pattern@),
        },
{
    let mut i: usize = 0;
    while i < s.len()
        invariant
            i <= s@.len(),
            forall|j: int| 0 <= j < i ==> !occurs_at(s@, pattern@, j),
        decreases s@.len() - i,
    {
        if stands_at(s, pattern, i) {
            proof {
                first_is_index_of(s@, pattern@, i as int);
            }
            return Some(i);
        }
        i = i + 1;
    }
    if stands_at(s, pattern, i) {
        proof {
            first_is_index_of(s@, pattern@, i as int);
        }
        return Some(i);
    }
    None
}

/// Copies `data` into `buf` at `*idx`, as much of it as fits, and moves `*idx` past the copy.
pub fn append_bytes(buf: &mut [u8], idx: &mut usize, data: &[u8])
    requires
        *old(idx) <= old(buf)@.len(),
    ensures
        final(buf)@.len() == old(buf)@.len(),
        *old(idx) <= *final(idx) <= final(buf)@.len(),
        final(buf)@.take(*final(idx) as int) == clip(
            old(buf)@.take(*old(idx) as int) + data@,
            old(buf)@.len(),
        ),
        final(buf)@.skip(*final(idx) as int) == old(buf)@.skip(*final(idx) as int),
{
    let start: usize = *idx;
    let remain: usize = buf.len().saturating_sub(start);
    let copy: usize = data.len().min(remain);
    let mut i: usize = 0;
    while i < copy
        invariant
            i <= copy <= data@.len(),
            start + copy <= buf.len(),
            buf@.len() == old(buf)@.len(),
            forall|j: int| 0 <= j < start ==> buf@[j] == old(buf)@[j],
            forall|j: int| 0 <= j < i ==> buf@[start + j] == data@[j],
            forall|j: int| start + i <= j < buf@.len() ==> buf@[j] == old(buf)@[j],
        decreases copy - i,
    {
        buf[start + i] = data[i];
        i = i + 1;
    }
    *idx = start + copy;
    proof {
        let before = old(buf)@.take(start as int) + data@;
        assert forall|j: int| start <= j < start + copy implies buf@[j] == data@[j - start] by {
            assert(buf@[start + (j - start)] == data@[j - start]);
        }
        assert(buf@.take(start + copy) =~= clip(before, old(buf)@.len()));
        assert(buf@.skip(start + copy) =~= old(buf)@.skip(start + copy));
    }
}

} // verus!
