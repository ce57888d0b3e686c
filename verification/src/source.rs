//! Source file management and source location tracking.
//!
//! A source file's text is modelled by its UTF-8 bytes; line and column
//! numbers are byte positions: lines are 1-indexed, columns 0-indexed.

use vstd::prelude::*;
use vstd::utf8::*;
use vstd::string::*;

use crate::text::{lemma_boundary_after_newline, newline_byte};

verus! {

broadcast use vstd::utf8::encode_utf8_valid_utf8, vstd::utf8::encode_utf8_decode_utf8;

// ---------------------------------------------------------------------------
// Mathematical model of lines
// ---------------------------------------------------------------------------

/// Whether byte position `p` of `b` starts a line: position 0, or any
/// position right after a newline byte.
pub open spec fn is_line_start(b: Seq<u8>, p: int) -> bool {
    p == 0 || (0 < p <= b.len() && b[p - 1] == newline_byte())
}

/// The byte offsets at which the lines of `b` start, in increasing order:
/// 0 for the first line, then the position after each newline byte.
pub open spec fn line_starts_of(b: Seq<u8>) -> Seq<u32>
    decreases b.len(),
{
    if b.len() == 0 {
        seq![0u32]
    } else if b.last() == newline_byte() {
        line_starts_of(b.drop_last()).push(b.len() as u32)
    } else {
        line_starts_of(b.drop_last())
    }
}

/// The number of newline bytes in `b`.
pub open spec fn count_newlines(b: Seq<u8>) -> nat
    decreases b.len(),
{
    if b.len() == 0 {
        0
    } else if b.last() == newline_byte() {
        count_newlines(b.drop_last()) + 1
    } else {
        count_newlines(b.drop_last())
    }
}

/// Strictly increasing sequence.
pub open spec fn strictly_increasing(s: Seq<u32>) -> bool {
    forall|i: int, j: int| 0 <= i < j < s.len() ==> s[i] < s[j]
}

/// The index of the last element of `s` that is at most `o` (-1 if none).
pub open spec fn last_start_index(s: Seq<u32>, o: int) -> int
    decreases s.len(),
{
    if s.len() == 0 {
        -1
    } else if s.last() <= o {
        s.len() - 1
    } else {
        last_start_index(s.drop_last(), o)
    }
}

/// The 1-indexed line and 0-indexed column of byte offset `o` in `b`, or
/// `None` when `o` lies past the end of `b`.
pub open spec fn line_col_of(b: Seq<u8>, o: int) -> Option<(u32, u32)> {
    if o < 0 || o > b.len() {
        None
    } else {
        let s = line_starts_of(b);
        let i = last_start_index(s, o);
        Some((line_number(i + 1), (o - s[i]) as u32))
    }
}

/// Line number `n` as a `u32`: `n` itself when it fits, and 0 in the one
/// case where it does not (a source of `u32::MAX` newline bytes has
/// `u32::MAX + 1` lines, and the last line number wraps around).
pub open spec fn line_number(n: int) -> u32 {
    if n <= u32::MAX {
        n as u32
    } else {
        0u32
    }
}

/// The byte range `[start, end)` of 1-indexed line `n` of `b` (the range
/// includes the line's terminating newline, if any).
pub open spec fn line_range_of(b: Seq<u8>, n: int) -> (int, int) {
    let s = line_starts_of(b);
    let start = s[n - 1] as int;
    let end = if n < s.len() { s[n] as int } else { b.len() as int };
    (start, end)
}

/// Whether `b` has a line numbered `n` (1-indexed).
pub open spec fn has_line(b: Seq<u8>, n: int) -> bool {
    1 <= n <= line_starts_of(b).len()
}

/// The bytes of 1-indexed line `n` of `b`, including its newline.
pub open spec fn line_bytes_of(b: Seq<u8>, n: int) -> Seq<u8> {
    b.subrange(line_range_of(b, n).0, line_range_of(b, n).1)
}

/// The line starts of `b` are exactly its line-start positions, listed in
/// increasing order, beginning with 0; there is one more line than there
/// are newline bytes.
pub proof fn lemma_line_starts(b: Seq<u8>)
    requires
        b.len() <= u32::MAX,
    ensures
        line_starts_of(b).len() == count_newlines(b) + 1,
        count_newlines(b) <= b.len(),
        line_starts_of(b)[0] == 0,
        strictly_increasing(line_starts_of(b)),
        forall|i: int|
            0 <= i < line_starts_of(b).len() ==> #[trigger] line_starts_of(b)[i] <= b.len()
                && is_line_start(b, line_starts_of(b)[i] as int),
        forall|p: int|
            0 <= p <= b.len() && is_line_start(b, p) ==> line_starts_of(b).contains(p as u32),
    decreases b.len(),
{
    if b.len() > 0 {
        let pre = b.drop_last();
        lemma_line_starts(pre);
        let sp = line_starts_of(pre);
        let s = line_starts_of(b);
        assert forall|i: int| 0 <= i < sp.len() implies is_line_start(b, sp[i] as int) by {
            assert(is_line_start(pre, sp[i] as int));
            if sp[i] > 0 {
                assert(b[sp[i] - 1] == pre[sp[i] - 1]);
            }
        }
        assert forall|p: int| 0 <= p <= b.len() && is_line_start(b, p) implies s.contains(
            p as u32,
        ) by {
            if p < b.len() {
                if p > 0 {
                    assert(pre[p - 1] == b[p - 1]);
                }
                assert(is_line_start(pre, p));
                let k = choose|k: int| 0 <= k < sp.len() && sp[k] == p as u32;
                assert(s[k] == p as u32);
            } else {
                assert(b.last() == newline_byte() || p == 0);
                if p == 0 {
                    assert(s[0] == 0);
                } else {
                    assert(s[s.len() - 1] == p as u32);
                }
            }
        }
    }
}

/// `last_start_index` finds the boundary of a sorted sequence: if `s[k]` is
/// at most `o` and the next element (if any) exceeds it, the answer is `k`.
proof fn lemma_last_start_index(s: Seq<u32>, o: int, k: int)
    requires
        strictly_increasing(s),
        0 <= k < s.len(),
        s[k] <= o,
        k + 1 == s.len() || s[k + 1] > o,
    ensures
        last_start_index(s, o) == k,
    decreases s.len(),
{
    if k + 1 < s.len() {
        assert(s.last() > o);
        lemma_last_start_index(s.drop_last(), o, k);
    }
}

/// The index found by `last_start_index` on sorted line starts lies in range
/// and brackets `o`.
proof fn lemma_last_start_index_bounds(s: Seq<u32>, o: int)
    requires
        s.len() > 0,
        s[0] == 0,
        o >= 0,
    ensures
        0 <= last_start_index(s, o) < s.len(),
        s[last_start_index(s, o)] <= o,
    decreases s.len(),
{
    if s.len() > 1 && s.last() > o {
        lemma_last_start_index_bounds(s.drop_last(), o);
    }
}

/// The number of line starts at or before offset `o`, less one, is the
/// number of newline bytes before `o`.
proof fn lemma_last_start_index_counts(b: Seq<u8>, o: int)
    requires
        b.len() <= u32::MAX,
        0 <= o <= b.len(),
    ensures
        last_start_index(line_starts_of(b), o) == count_newlines(b.subrange(0, o)),
    decreases b.len(),
{
    lemma_line_starts(b);
    let s = line_starts_of(b);
    if b.len() > 0 {
        let pre = b.drop_last();
        lemma_line_starts(pre);
        if o == b.len() {
            assert(b.subrange(0, o) =~= b);
            assert(s.last() <= o);
        } else {
            lemma_last_start_index_counts(pre, o);
            assert(pre.subrange(0, o) =~= b.subrange(0, o));
            if b.last() == newline_byte() {
                assert(s.last() == b.len());
                assert(s.drop_last() =~= line_starts_of(pre));
            }
        }
    } else {
        assert(b.subrange(0, o) =~= b);
    }
}

/// The number of bytes between offset `o` and the newline byte before it
/// (or the start of `b`).
pub open spec fn column_of(b: Seq<u8>, o: int) -> int
    decreases o,
{
    if o <= 0 || o > b.len() || b[o - 1] == newline_byte() {
        0
    } else {
        1 + column_of(b, o - 1)
    }
}

/// A column count that reaches back to the previous newline byte (or the
/// start) without crossing one is `column_of`.
proof fn lemma_column_of_unique(b: Seq<u8>, o: int, c: int)
    requires
        0 <= o <= b.len(),
        0 <= c <= o,
        forall|p: int| o - c <= p < o ==> b[p] != newline_byte(),
        c == o || b[o - c - 1] == newline_byte(),
    ensures
        c == column_of(b, o),
    decreases o,
{
    if o > 0 && b[o - 1] != newline_byte() {
        assert(c >= 1);
        lemma_column_of_unique(b, o - 1, c - 1);
    } else if o > 0 {
        if c > 0 {
            assert(b[o - 1] != newline_byte());
        }
    }
}

/// Line and column of an offset, counted directly in the bytes: the line is
/// one more than the number of newline bytes before the offset, and the
/// column is the number of bytes between the offset and the newline byte
/// before it (or the start of the source), with no newline among them.
/// Where the line number has not wrapped around, that line starts `c` bytes
/// before the offset.
pub proof fn lemma_line_col_counts(b: Seq<u8>, o: int)
    requires
        b.len() <= u32::MAX,
        0 <= o <= b.len(),
    ensures
        line_col_of(b, o) matches Some((l, c)) && {
            &&& l == line_number(1 + count_newlines(b.subrange(0, o)) as int)
            &&& 0 <= c <= o
            &&& forall|p: int| o - c <= p < o ==> b[p] != newline_byte()
            &&& (c == o || b[o - c - 1] == newline_byte())
            &&& c == column_of(b, o)
            &&& (l != 0 ==> 1 <= l <= line_starts_of(b).len() && line_starts_of(b)[l - 1] + c
                == o)
        },
{
    lemma_line_starts(b);
    lemma_last_start_index_counts(b, o);
    let s = line_starts_of(b);
    lemma_last_start_index_bounds(s, o);
    lemma_last_start_index_tail(s, o);
    let i = last_start_index(s, o);
    let c = o - s[i];
    assert(is_line_start(b, s[i] as int));
    assert forall|p: int| o - c <= p < o implies b[p] != newline_byte() by {
        if b[p] == newline_byte() {
            assert(is_line_start(b, p + 1));
            let m = choose|m: int| 0 <= m < s.len() && s[m] == (p + 1) as u32;
            if m <= i {
                if m < i {
                    assert(s[m] < s[i]);
                }
            } else {
                if m > i + 1 {
                    assert(s[i + 1] < s[m]);
                }
            }
        }
    }
    lemma_column_of_unique(b, o, c);
}

/// Every byte offset up to the end of the source lies on the line that
/// `line_col_of` names, at the column it names: the line exists, it starts
/// `col` bytes before the offset, and the offset is not past its end. (It
/// fails only where the line number wraps around: on the last line of a
/// source of `u32::MAX` newline bytes.)
pub proof fn lemma_line_col_within_line(b: Seq<u8>, o: int)
    requires
        b.len() <= u32::MAX,
        count_newlines(b) < u32::MAX,
        0 <= o <= b.len(),
    ensures
        line_col_of(b, o) matches Some((l, c)) && has_line(b, l as int) && line_range_of(
            b,
            l as int,
        ).0 + c == o && o <= line_range_of(b, l as int).1,
{
    lemma_line_starts(b);
    let s = line_starts_of(b);
    lemma_last_start_index_bounds(s, o);
    let i = last_start_index(s, o);
    if i + 1 < s.len() {
        lemma_last_start_index_tail(s, o);
    }
}

/// Past the index that `last_start_index` finds, every element exceeds `o`.
proof fn lemma_last_start_index_tail(s: Seq<u32>, o: int)
    requires
        s.len() > 0,
        s[0] == 0,
        o >= 0,
    ensures
        last_start_index(s, o) + 1 < s.len() ==> s[last_start_index(s, o) + 1] > o,
    decreases s.len(),
{
    if s.len() > 1 && s.last() > o {
        lemma_last_start_index_tail(s.drop_last(), o);
        lemma_last_start_index_bounds(s.drop_last(), o);
        let i = last_start_index(s.drop_last(), o);
        if i + 1 == s.len() - 1 {
            assert(s[i + 1] == s.last());
        } else if i + 1 < s.len() - 1 {
            assert(s[i + 1] == s.drop_last()[i + 1]);
        }
    }
}

/// Every line but the last ends with a newline and holds no other newline;
/// the last line holds no newline at all.
pub proof fn lemma_line_structure(b: Seq<u8>)
    requires
        b.len() <= u32::MAX,
    ensures
        forall|k: int|
            1 <= k < line_starts_of(b).len() ==> {
                let l = #[trigger] line_bytes_of(b, k);
                &&& l.len() > 0
                &&& l.last() == newline_byte()
                &&& forall|p: int| 0 <= p < l.len() - 1 ==> l[p] != newline_byte()
            },
        forall|p: int|
            0 <= p < line_bytes_of(b, line_starts_of(b).len() as int).len() ==> line_bytes_of(
                b,
                line_starts_of(b).len() as int,
            )[p] != newline_byte(),
{
    lemma_line_starts(b);
    let s = line_starts_of(b);
    let n = s.len() as int;
    assert forall|k: int| 1 <= k < n implies {
        let l = #[trigger] line_bytes_of(b, k);
        &&& l.len() > 0
        &&& l.last() == newline_byte()
        &&& forall|p: int| 0 <= p < l.len() - 1 ==> l[p] != newline_byte()
    } by {
        let l = line_bytes_of(b, k);
        let lo = s[k - 1] as int;
        let hi = s[k] as int;
        assert(lo < hi);
        assert(is_line_start(b, hi));
        assert(l[l.len() - 1] == b[hi - 1]);
        assert forall|p: int| 0 <= p < l.len() - 1 implies l[p] != newline_byte() by {
            if l[p] == newline_byte() {
                let q = lo + p + 1;
                assert(b[q - 1] == l[p]);
                assert(is_line_start(b, q));
                let m = choose|m: int| 0 <= m < s.len() && s[m] == q as u32;
                if m <= k - 1 {
                    if m < k - 1 {
                        assert(s[m] < s[k - 1]);
                    }
                } else if m >= k {
                    if m > k {
                        assert(s[k] < s[m]);
                    }
                }
            }
        }
    }
    let l = line_bytes_of(b, n);
    let lo = s[n - 1] as int;
    assert forall|p: int| 0 <= p < l.len() implies l[p] != newline_byte() by {
        if l[p] == newline_byte() {
            let q = lo + p + 1;
            assert(b[q - 1] == l[p]);
            assert(is_line_start(b, q));
            let m = choose|m: int| 0 <= m < s.len() && s[m] == q as u32;
            if m < n - 1 {
                assert(s[m] < s[n - 1]);
            }
        }
    }
}

/// The bytes of lines `1..=k`, one after the other.
pub open spec fn lines_prefix(b: Seq<u8>, k: int) -> Seq<u8>
    decreases k,
{
    if k <= 0 {
        Seq::empty()
    } else {
        lines_prefix(b, k - 1) + line_bytes_of(b, k)
    }
}

/// The lines of a source, one after the other, give back the whole source.
pub proof fn lemma_lines_cover_source(b: Seq<u8>)
    requires
        b.len() <= u32::MAX,
    ensures
        lines_prefix(b, line_starts_of(b).len() as int) == b,
{
    lemma_line_starts(b);
    let s = line_starts_of(b);
    lemma_lines_prefix(b, s.len() as int);
    assert(b.subrange(0, b.len() as int) =~= b);
}

proof fn lemma_lines_prefix(b: Seq<u8>, k: int)
    requires
        b.len() <= u32::MAX,
        1 <= k <= line_starts_of(b).len(),
        line_starts_of(b)[0] == 0,
        strictly_increasing(line_starts_of(b)),
        forall|i: int|
            0 <= i < line_starts_of(b).len() ==> #[trigger] line_starts_of(b)[i] <= b.len(),
    ensures
        lines_prefix(b, k) =~= b.subrange(0, line_range_of(b, k).1),
    decreases k,
{
    let s = line_starts_of(b);
    if k == 1 {
        assert(lines_prefix(b, 0) =~= Seq::<u8>::empty());
    } else {
        lemma_lines_prefix(b, k - 1);
        assert(s[k - 2] < s[k - 1]);
        assert(line_range_of(b, k - 1).1 == s[k - 1]);
        assert(line_range_of(b, k).0 == s[k - 1]);
        if k < s.len() {
            assert(s[k - 1] < s[k]);
        }
    }
}

// ---------------------------------------------------------------------------
// FileId and Span
// ---------------------------------------------------------------------------

/// Opaque identifier for a loaded source file.
#[derive(Debug, Clone, Copy, PartialEq, Eq, Structural, Hash)]
pub struct FileId(pub u32);

impl FileId {
    pub fn new(id: u32) -> (r: Self)
        ensures
            r == FileId(id),
    {
        FileId(id)
    }

    pub fn as_u32(self) -> (r: u32)
        ensures
            r == self.0,
    {
        self.0
    }
}

/// A half-open byte range `[start, end)` within a source file.
#[derive(Debug, Clone, Copy, PartialEq, Eq, Structural, Hash)]
pub struct Span {
    pub file_id: FileId,
    pub start: u32,
    pub end: u32,
}

impl Span {
    pub fn new(file_id: FileId, start: u32, end: u32) -> (r: Self)
        ensures
            r == (Span { file_id, start, end }),
    {
        Span { file_id, start, end }
    }
}

// ---------------------------------------------------------------------------
// SourceFile
// ---------------------------------------------------------------------------

/// An owned copy of a source file.
#[derive(Debug)]
pub struct SourceFile {
    id: FileId,
    path: String,
    source: String,
    line_starts: Vec<u32>,
}

impl SourceFile {
    #[verifier::type_invariant]
    spec fn inv(self) -> bool {
        &&& encode_utf8(self.source@).len() <= u32::MAX
        &&& self.line_starts@ == line_starts_of(encode_utf8(self.source@))
    }

    /// The identifier recorded in this file.
    pub closed spec fn file_id(self) -> FileId {
        self.id
    }

    /// The path of this file, as text.
    pub closed spec fn path_view(self) -> Seq<char> {
        self.path@
    }

    /// The source text.
    pub closed spec fn text(self) -> Seq<char> {
        self.source@
    }

    /// The source text as UTF-8 bytes.
    pub open spec fn bytes(self) -> Seq<u8> {
        encode_utf8(self.text())
    }

    /// The byte offsets at which the lines of this file start.
    pub open spec fn starts(self) -> Seq<u32> {
        line_starts_of(self.bytes())
    }

    /// Create a new `SourceFile` from its components; its line starts are
    /// computed from `source`.
    pub fn new(id: FileId, path: String, source: String) -> (r: Self)
        requires
            encode_utf8(source@).len() <= u32::MAX,
        ensures
            r.file_id() == id,
            r.path_view() == path@,
            r.text() == source@,
    {
        let line_starts = compute_line_starts(source.as_str());
        SourceFile { id, path, source, line_starts }
    }

    /// The `FileId` assigned to this file.
    pub fn id(&self) -> (r: FileId)
        ensures
            r == self.file_id(),
    {
        self.id
    }

    /// The path this file was loaded from.
    pub fn path(&self) -> (r: &str)
        ensures
            r@ == self.path_view(),
    {
        self.path.as_str()
    }

    /// The full source text.
    pub fn source(&self) -> (r: &str)
        ensures
            r@ == self.text(),
    {
        self.source.as_str()
    }

    /// The length of the source text in bytes.
    pub fn len(&self) -> (r: usize)
        ensures
            r == self.bytes().len(),
            r <= u32::MAX,
    {
        proof {
            use_type_invariant(self);
        }
        self.source.as_str().len()
    }

    /// Whether the source is empty.
    pub fn is_empty(&self) -> (r: bool)
        ensures
            r == (self.text().len() == 0),
            r == (self.bytes().len() == 0),
    {
        proof {
            if self.text().len() > 0 {
                vstd::utf8::encode_utf8_first_scalar(self.text());
            }
        }
        self.source.as_str().is_empty()
    }

    /// Return the (1-indexed) line and (0-indexed) column for the given byte
    /// offset, or `None` if `offset` is past the end of the source.
    pub fn line_col(&self, offset: u32) -> (r: Option<(u32, u32)>)
        ensures
            r == line_col_of(self.bytes(), offset as int),
            r matches Some((l, c)) ==> {
                &&& (self.starts().len() <= u32::MAX ==> l != 0)
                &&& (l != 0 ==> {
                    &&& 1 <= l <= self.starts().len()
                    &&& self.starts()[l - 1] <= offset
                    &&& c == offset - self.starts()[l - 1]
                    &&& (l == self.starts().len() || self.starts()[l as int] > offset)
                })
            },
    {
        proof {
            use_type_invariant(self);
            lemma_line_starts(self.bytes());
        }
        let o = offset as usize;
        if o > self.len() {
            return None;
        }
        let starts = &self.line_starts;
        let ghost s = starts@;
        // Binary search for the last line start that is at most `offset`.
        let mut lo: usize = 0;
        let mut hi: usize = starts.len();
        while lo + 1 < hi
            invariant
                s == starts@,
                s == self.starts(),
                0 <= lo < hi <= s.len(),
                s[lo as int] <= offset,
                hi == s.len() || s[hi as int] > offset,
            decreases hi - lo,
        {
            let mid = lo + (hi - lo) / 2;
            if starts[mid] <= offset {
                lo = mid;
            } else {
                hi = mid;
            }
        }
        proof {
            lemma_last_start_index(s, offset as int, lo as int);
        }
        let line_start = starts[lo];
        let col = offset - line_start;
        let line: u32 = if lo < u32::MAX as usize {
            (lo + 1) as u32
        } else {
            0
        };
        Some((line, col))
    }

    /// Return the source text of a specific 1-indexed line, including its
    /// terminating newline.
    pub fn line(&self, line_num: u32) -> (r: Option<&str>)
        ensures
            r is Some <==> has_line(self.bytes(), line_num as int),
            r matches Some(t) ==> t.spec_bytes() == line_bytes_of(self.bytes(), line_num as int),
    {
        proof {
            use_type_invariant(self);
            lemma_line_starts(self.bytes());
        }
        if line_num == 0 {
            return None;
        }
        let idx = (line_num - 1) as usize;
        if idx >= self.line_starts.len() {
            return None;
        }
        let start = self.line_starts[idx] as usize;
        let end = if idx + 1 < self.line_starts.len() {
            self.line_starts[idx + 1] as usize
        } else {
            self.source.as_str().len()
        };
        let ghost b = self.bytes();
        let ghost s = self.starts();
        proof {
            assert(s[idx as int] <= b.len());
            if idx + 1 < s.len() {
                assert(s[idx as int] < s[idx + 1]);
                assert(s[idx + 1] <= b.len());
            }
            assert(start <= end <= b.len());
            is_char_boundary_start_end_of_seq(b);
            if end < b.len() {
                assert(is_line_start(b, end as int));
                lemma_boundary_after_newline(b, end as int);
            }
        }
        let src = self.source.as_str();
        let (head, _rest) = src.split_at(end);
        proof {
            let hb = b.subrange(0, end as int);
            assert(head.spec_bytes() == hb);
            valid_utf8_split(b, end as int);
            is_char_boundary_start_end_of_seq(hb);
            if 0 < start < end {
                assert(is_line_start(b, start as int));
                assert(hb[start - 1] == b[start - 1]);
                lemma_boundary_after_newline(hb, start as int);
            }
            if start == end {
                assert(hb.len() == end);
            }
        }
        let (_before, text) = head.split_at(start);
        proof {
            assert(text.spec_bytes() =~= b.subrange(start as int, end as int));
        }
        Some(text)
    }

    /// The number of lines in this file (0 in the one case where it does not
    /// fit in a `u32`: a source of `u32::MAX` newline bytes).
    pub fn num_lines(&self) -> (r: u32)
        ensures
            r == line_number(self.starts().len() as int),
            self.starts().len() == count_newlines(self.bytes()) + 1,
    {
        proof {
            use_type_invariant(self);
            lemma_line_starts(self.bytes());
        }
        let n = self.line_starts.len();
        if n <= u32::MAX as usize {
            n as u32
        } else {
            0
        }
    }

    /// The list of line-start offsets (byte positions).
    pub fn line_starts(&self) -> (r: &[u32])
        ensures
            r@ == self.starts(),
    {
        proof {
            use_type_invariant(self);
        }
        self.line_starts.as_slice()
    }
}

impl Clone for SourceFile {
    fn clone(&self) -> (r: Self)
        ensures
            r.file_id() == self.file_id(),
            r.path_view() == self.path_view(),
            r.text() == self.text(),
    {
        proof {
            use_type_invariant(self);
        }
        let line_starts = self.line_starts.clone();
        assert(line_starts@ =~= self.line_starts@);
        SourceFile {
            id: self.id,
            path: self.path.clone(),
            source: self.source.clone(),
            line_starts,
        }
    }
}

/// Computes the byte offsets at which the lines of `source` start.
fn compute_line_starts(source: &str) -> (starts: Vec<u32>)
    requires
        source.spec_bytes().len() <= u32::MAX,
    ensures
        starts@ == line_starts_of(source.spec_bytes()),
{
    let bytes = source.as_bytes();
    let mut starts: Vec<u32> = Vec::new();
    starts.push(0);
    let mut i: usize = 0;
    assert(bytes@.subrange(0, 0) =~= Seq::<u8>::empty());
    while i < bytes.len()
        invariant
            bytes@ == source.spec_bytes(),
            bytes@.len() <= u32::MAX,
            0 <= i <= bytes@.len(),
            starts@ == line_starts_of(bytes@.subrange(0, i as int)),
        decreases bytes@.len() - i,
    {
        let ghost pre = bytes@.subrange(0, i as int);
        let ghost next = bytes@.subrange(0, i + 1);
        assert(next.drop_last() =~= pre);
        if bytes[i] == 10u8 {
            starts.push((i + 1) as u32);
        }
        i = i + 1;
    }
    assert(bytes@.subrange(0, bytes@.len() as int) =~= bytes@);
    starts
}

// ---------------------------------------------------------------------------
// SourceManager
// ---------------------------------------------------------------------------

/// Manages all loaded source files and provides lookup by [`FileId`].
#[derive(Debug)]
pub struct SourceManager {
    files: Vec<SourceFile>,
}

impl View for SourceManager {
    type V = Seq<SourceFile>;

    closed spec fn view(&self) -> Seq<SourceFile> {
        self.files@
    }
}

/// The file that `id` names in a manager holding `files`, if any.
pub open spec fn file_of(files: Seq<SourceFile>, id: FileId) -> Option<SourceFile> {
    if (id.0 as int) < files.len() {
        Some(files[id.0 as int])
    } else {
        None
    }
}

/// The id that the file at position `k` of a manager carries.
pub open spec fn id_at(k: int) -> FileId {
    FileId(#[verifier::truncate] (k as u32))
}

/// Every file of `files` carries the id of its position.
pub open spec fn ids_in_place(files: Seq<SourceFile>) -> bool {
    forall|k: int| 0 <= k < files.len() ==> (#[trigger] files[k]).file_id() == id_at(k)
}

impl SourceManager {
    /// Every registered file carries the id it is stored under.
    #[verifier::type_invariant]
    spec fn inv(self) -> bool {
        ids_in_place(self@)
    }

    pub fn new() -> (r: Self)
        ensures
            r@ == Seq::<SourceFile>::empty(),
    {
        SourceManager { files: Vec::new() }
    }

    /// Add an already-constructed SourceFile, returning its assigned FileId.
    ///
    /// The id is the number of files registered before, as a `u32`.
    pub fn add(&mut self, sf: SourceFile) -> (r: FileId)
        ensures
            r == id_at(old(self)@.len() as int),
            final(self)@.len() == old(self)@.len() + 1,
            ids_in_place(final(self)@),
            final(self)@.drop_last() == old(self)@,
            final(self)@.last().file_id() == r,
            final(self)@.last().path_view() == sf.path_view(),
            final(self)@.last().text() == sf.text(),
    {
        let id = FileId(#[verifier::truncate] (self.files.len() as u32));
        let mut sf = sf;
        proof {
            use_type_invariant(&sf);
        }
        sf.id = id;
        proof {
            use_type_invariant(&*self);
        }
        let mut files: Vec<SourceFile> = Vec::new();
        std::mem::swap(&mut files, &mut self.files);
        files.push(sf);
        proof {
            assert(files@.drop_last() =~= old(self)@);
            assert forall|k: int| 0 <= k < files@.len() implies (#[trigger] files@[k]).file_id()
                == id_at(k) by {
                if k < files@.len() - 1 {
                    assert(files@[k] == old(self)@[k]);
                }
            }
        }
        self.files = files;
        id
    }

    /// Look up a file by its id.
    pub fn get(&self, id: FileId) -> (r: Option<&SourceFile>)
        ensures
            match r {
                Some(f) => file_of(self@, id) == Some(*f) && f.file_id() == id,
                None => file_of(self@, id) is None,
            },
    {
        proof {
            use_type_invariant(self);
        }
        let i = id.0 as usize;
        if i < self.files.len() {
            Some(&self.files[i])
        } else {
            None
        }
    }

    /// The total number of registered files.
    pub fn len(&self) -> (r: usize)
        ensures
            r == self@.len(),
    {
        self.files.len()
    }

    /// Whether any files are registered.
    pub fn is_empty(&self) -> (r: bool)
        ensures
            r == (self@.len() == 0),
    {
        self.files.len() == 0
    }

    /// Iterate over all registered files, in the order they were added.
    pub fn iter(&self) -> (r: std::slice::Iter<'_, SourceFile>)
        ensures
            vstd::std_specs::iter::IteratorSpec::remaining(&r) == self@.as_ref(),
    {
        let sl = self.files.as_slice();
        let it = sl.iter();
        proof {
            vstd::std_specs::slice::axiom_spec_slice_iter(sl);
        }
        it
    }
}

impl Default for SourceManager {
    fn default() -> (r: Self)
        ensures
            r@ == Seq::<SourceFile>::empty(),
    {
        Self::new()
    }
}

/// After a file is added, looking up the id that `add` returned finds the
/// added file, and every file added before is still found under its old id,
/// as long as fewer than `u32::MAX` files were registered (ids are `u32`).
pub proof fn lemma_add_then_get(before: Seq<SourceFile>, after: Seq<SourceFile>, id: FileId)
    requires
        after.len() == before.len() + 1,
        after.drop_last() == before,
        id == id_at(before.len() as int),
        before.len() < u32::MAX,
    ensures
        file_of(after, id) == Some(after.last()),
        forall|old_id: FileId|
            file_of(before, old_id) is Some ==> #[trigger] file_of(after, old_id) == file_of(
                before,
                old_id,
            ),
        forall|old_id: FileId| file_of(before, old_id) is Some ==> old_id != id,
{
    assert forall|old_id: FileId| file_of(before, old_id) is Some implies #[trigger] file_of(
        after,
        old_id,
    ) == file_of(before, old_id) by {
        assert(after[old_id.0 as int] == before[old_id.0 as int]);
    }
}

} // verus!
