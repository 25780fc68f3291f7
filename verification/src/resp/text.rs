//! Byte strings: comparing them, and searching them for a byte.

use vstd::prelude::*;
use vstd::string::StringSliceAdditionalSpecFns;

verus! {

/// Carriage return.
pub const CR: u8 = 13;

/// Line feed.
pub const LF: u8 = 10;

/// The space.
pub const SPACE: u8 = 32;

/// The byte `:`.
pub const COLON: u8 = 58;

/// The bytes of a piece of text.
pub open spec fn bytes_of(text: &str) -> Seq<u8> {
    text.spec_bytes()
}

/// The bytes of ASCII text are its characters, one byte each.
pub proof fn lemma_ascii_bytes(text: &str)
    requires
        vstd::string::is_ascii(text),
    ensures
        bytes_of(text) == Seq::new(text@.len(), |i: int| text@[i] as u8),
{
    vstd::string::is_ascii_spec_bytes(text);
}

/// Whether two byte strings are equal.
pub fn bytes_eq(a: &[u8], b: &[u8]) -> (r: bool)
    ensures
        r == (a@ == b@),
{
    if a.len() != b.len() {
        return false;
    }
    let mut i: usize = 0;
    while i < a.len()
        invariant
            i <= a.len(),
            a.len() == b.len(),
            forall|j: int| 0 <= j < i ==> a@[j] == b@[j],
        decreases a.len() - i,
    {
        if a[i] != b[i] {
            return false;
        }
        i = i + 1;
    }
    assert(a@ =~= b@);
    true
}

/// Whether a byte string is the given text.
pub fn text_eq(a: &[u8], text: &str) -> (r: bool)
    ensures
        r == (a@ == bytes_of(text)),
{
    bytes_eq(a, text.as_bytes())
}

/// A copy of a byte string.
pub fn copy_bytes(a: &[u8]) -> (r: Vec<u8>)
    ensures
        r@ == a@,
{
    let mut out: Vec<u8> = Vec::new();
    let mut i: usize = 0;
    while i < a.len()
        invariant
            i <= a.len(),
            out@ == a@.take(i as int),
        decreases a.len() - i,
    {
        out.push(a[i]);
        assert(a@.take(i + 1) =~= a@.take(i as int).push(a@[i as int]));
        i = i + 1;
    }
    assert(a@.take(a.len() as int) =~= a@);
    out
}

/// A copy of the bytes of `a` from `from` up to `to`.
pub fn copy_range(a: &[u8], from: usize, to: usize) -> (r: Vec<u8>)
    requires
        from <= to <= a.len(),
    ensures
        r@ == a@.subrange(from as int, to as int),
{
    let mut out: Vec<u8> = Vec::new();
    let mut i: usize = from;
    while i < to
        invariant
            from <= i <= to <= a.len(),
            out@ == a@.subrange(from as int, i as int),
        decreases to - i,
    {
        out.push(a[i]);
        assert(a@.subrange(from as int, i + 1) =~= a@.subrange(from as int, i as int).push(
            a@[i as int],
        ));
        i = i + 1;
    }
    out
}

/// Appends the bytes of `a` to `out`.
pub fn push_bytes(out: &mut Vec<u8>, a: &[u8])
    ensures
        final(out)@ == old(out)@ + a@,
{
    let mut i: usize = 0;
    while i < a.len()
        invariant
            i <= a.len(),
            out@ == old(out)@ + a@.take(i as int),
        decreases a.len() - i,
    {
        out.push(a[i]);
        assert(a@.take(i + 1) =~= a@.take(i as int).push(a@[i as int]));
        assert(out@ =~= old(out)@ + a@.take(i + 1));
        i = i + 1;
    }
    assert(a@.take(a.len() as int) =~= a@);
}

/// The first index at or after `from` at which `s` holds `b`, or the length
/// of `s` where it holds none.
pub open spec fn find_byte(s: Seq<u8>, b: u8, from: int) -> int
    decreases s.len() - from,
{
    if from < 0 || from >= s.len() {
        s.len() as int
    } else if s[from] == b {
        from
    } else {
        find_byte(s, b, from + 1)
    }
}

/// The last index below `to` at which `s` holds `b`, or -1 where it holds
/// none.
pub open spec fn rfind_byte(s: Seq<u8>, b: u8, to: int) -> int
    decreases to,
{
    if to <= 0 || to > s.len() {
        -1
    } else if s[to - 1] == b {
        to - 1
    } else {
        rfind_byte(s, b, to - 1)
    }
}

/// What `find_byte` returns is the first occurrence.
pub proof fn lemma_find_byte(s: Seq<u8>, b: u8, from: int)
    requires
        0 <= from <= s.len(),
    ensures
        from <= find_byte(s, b, from) <= s.len(),
        find_byte(s, b, from) < s.len() ==> s[find_byte(s, b, from)] == b,
        forall|i: int| from <= i < find_byte(s, b, from) ==> s[i] != b,
    decreases s.len() - from,
{
    if from < s.len() && s[from] != b {
        lemma_find_byte(s, b, from + 1);
    }
}

/// The first occurrence is what `find_byte` returns.
pub proof fn lemma_find_byte_is(s: Seq<u8>, b: u8, from: int, at: int)
    requires
        0 <= from <= at <= s.len(),
        at < s.len() ==> s[at] == b,
        forall|i: int| from <= i < at ==> s[i] != b,
    ensures
        find_byte(s, b, from) == at,
    decreases at - from,
{
    if from < at {
        lemma_find_byte_is(s, b, from + 1, at);
    }
}

/// What `rfind_byte` returns is the last occurrence.
pub proof fn lemma_rfind_byte(s: Seq<u8>, b: u8, to: int)
    requires
        0 <= to <= s.len(),
    ensures
        -1 <= rfind_byte(s, b, to) < to,
        rfind_byte(s, b, to) >= 0 ==> s[rfind_byte(s, b, to)] == b,
        forall|i: int| rfind_byte(s, b, to) < i < to ==> s[i] != b,
    decreases to,
{
    if to > 0 && s[to - 1] != b {
        lemma_rfind_byte(s, b, to - 1);
    }
}

/// The last occurrence is what `rfind_byte` returns.
pub proof fn lemma_rfind_byte_is(s: Seq<u8>, b: u8, to: int, at: int)
    requires
        0 <= at < to <= s.len(),
        s[at] == b,
        forall|i: int| at < i < to ==> s[i] != b,
    ensures
        rfind_byte(s, b, to) == at,
    decreases to,
{
    if at < to - 1 {
        lemma_rfind_byte_is(s, b, to - 1, at);
    }
}

/// The first index at or after `from` at which `a` holds `b`, or the length
/// of `a`.
pub fn index_of(a: &[u8], b: u8, from: usize) -> (r: usize)
    requires
        from <= a.len(),
    ensures
        r == find_byte(a@, b, from as int),
{
    let mut i: usize = from;
    while i < a.len()
        invariant
            from <= i <= a.len(),
            find_byte(a@, b, from as int) == find_byte(a@, b, i as int),
        decreases a.len() - i,
    {
        if a[i] == b {
            return i;
        }
        i = i + 1;
    }
    i
}

/// The last index at which `a` holds `b`, or `None`.
pub fn last_index_of(a: &[u8], b: u8) -> (r: Option<usize>)
    ensures
        match r {
            Some(i) => i == rfind_byte(a@, b, a@.len() as int),
            None => rfind_byte(a@, b, a@.len() as int) == -1,
        },
{
    let mut i: usize = a.len();
    while i > 0
        invariant
            i <= a.len(),
            rfind_byte(a@, b, a@.len() as int) == rfind_byte(a@, b, i as int),
        decreases i,
    {
        if a[i - 1] == b {
            return Some(i - 1);
        }
        i = i - 1;
    }
    None
}

} // verus!
