//! A registry's record of one source file: its absolute span, its text, and
//! the precomputed positions at which its lines begin.

use std::sync::Arc;
use vstd::prelude::*;
use vstd::utf8::decode_utf8;
use vstd::utf8::encode_utf8;
use vstd::utf8::is_char_boundary;
use vstd::utf8::valid_utf8;
use vstd::string::StringSliceAdditionalSpecFns;

use crate::pos::Pos;
use crate::pos::Span;
use crate::text::CARRIAGE_RETURN;
use crate::text::NEWLINE;
use crate::text::count_scalars;
use crate::text::lemma_boundary_after_ascii;
use crate::text::lemma_boundary_at_scalar_start;
use crate::text::lemma_boundary_in_subrange;
use crate::text::lemma_scalar_count_is_decoded_len;
use crate::text::trim_line_end;

verus! {

/// A capability that yields a file's full source text and its display name.
/// The registry is generic over this, so contents may be backed by anything
/// that can present itself as UTF-8 text.
pub trait FileData {
    /// The characters of the full source text.
    spec fn source_view(&self) -> Seq<char>;

    /// The characters of the display name.
    spec fn name_view(&self) -> Seq<char>;

    /// The full source text.
    fn source(&self) -> (r: &str)
        ensures
            r@ == self.source_view(),
    ;

    /// The human-readable identifier of the data (in most cases, the name).
    fn name(&self) -> (r: &str)
        ensures
            r@ == self.name_view(),
    ;
}

/// A default implementation of `FileData` that owns both strings.
#[derive(Debug)]
pub struct DefaultFileData {
    pub name: String,
    pub contents: String,
}

impl DefaultFileData {
    /// Bundles a display name and source contents.
    pub fn new(name: String, contents: String) -> (r: Self)
        ensures
            r.name_view() == name@,
            r.source_view() == contents@,
    {
        DefaultFileData { name, contents }
    }
}

impl FileData for DefaultFileData {
    open spec fn source_view(&self) -> Seq<char> {
        self.contents@
    }

    open spec fn name_view(&self) -> Seq<char> {
        self.name@
    }

    fn source(&self) -> (r: &str) {
        self.contents.as_str()
    }

    fn name(&self) -> (r: &str) {
        self.name.as_str()
    }
}

/// A registry's record of a source file.
#[derive(Debug)]
pub struct File<T: FileData> {
    /// The span representing the entire file.
    pub span: Span,

    /// The data associated with the file.
    pub source: T,

    /// Absolute positions of line beginnings; the first entry is always the
    /// file's low bound.
    pub lines: Vec<Pos>,
}

impl<T: FileData> File<T> {
    /// The UTF-8 bytes of the file's source text.
    pub open spec fn src_bytes(&self) -> Seq<u8> {
        encode_utf8(self.source.source_view())
    }

    /// The file's low bound, as a mathematical integer.
    pub open spec fn spec_low(&self) -> int {
        self.span.low.0 as int
    }

    /// The file's high bound, as a mathematical integer.
    pub open spec fn spec_high(&self) -> int {
        self.span.high.0 as int
    }

    /// Well-formedness: the span covers exactly the source bytes, and `lines`
    /// is precisely the sorted sequence of the file's line beginnings — the
    /// low bound followed by the position just past each newline byte.
    pub open spec fn wf(&self) -> bool {
        &&& self.spec_low() + self.src_bytes().len() == self.spec_high()
        &&& self.lines@.len() >= 1
        &&& self.lines@[0] == self.span.low
        &&& forall|k: int|
            1 <= k < self.lines@.len() ==> self.spec_low() < (#[trigger] self.lines@[k]).0
                <= self.spec_high() && self.src_bytes()[self.lines@[k].0 - self.spec_low()
                - 1] == NEWLINE
        &&& forall|k1: int, k2: int|
            0 <= k1 < k2 < self.lines@.len() ==> (#[trigger] self.lines@[k1]).0 < (
            #[trigger] self.lines@[k2]).0
        &&& forall|i: int|
            0 <= i < self.src_bytes().len() && #[trigger] self.src_bytes()[i] == NEWLINE
                ==> exists|k: int|
                1 <= k < self.lines@.len() && (#[trigger] self.lines@[k]).0 == self.spec_low() + i
                    + 1
    }

    /// True when `k` is the index of the line that owns position `p`: the
    /// line starts at or before `p`, and the next line (if any) starts after.
    pub open spec fn line_index_ok(&self, k: int, p: int) -> bool {
        &&& 0 <= k < self.lines@.len()
        &&& self.lines@[k].0 <= p
        &&& k + 1 < self.lines@.len() ==> p < self.lines@[k + 1].0
    }

    /// The 0-indexed line that owns position `p`.
    pub open spec fn spec_line_of(&self, p: int) -> int {
        choose|k: int| self.line_index_ok(k, p)
    }

    /// At most one line owns any position.
    pub proof fn lemma_line_of_unique(&self, k1: int, k2: int, p: int)
        requires
            self.wf(),
            self.line_index_ok(k1, p),
            self.line_index_ok(k2, p),
        ensures
            k1 == k2,
    {
        if k1 + 1 < k2 {
            assert(self.lines@[k1 + 1].0 < self.lines@[k2].0);
        }
        if k2 + 1 < k1 {
            assert(self.lines@[k2 + 1].0 < self.lines@[k1].0);
        }
    }

    /// The absolute position where line `i` begins.
    pub open spec fn spec_line_start(&self, i: int) -> int {
        self.lines@[i].0 as int
    }

    /// The absolute position just past line `i`, its terminator included.
    pub open spec fn spec_line_end(&self, i: int) -> int {
        if i + 1 < self.lines@.len() {
            self.lines@[i + 1].0 as int
        } else {
            self.spec_high()
        }
    }

    /// The number of characters on the line owning `p` that precede `p`.
    pub open spec fn spec_col_of(&self, p: int) -> int {
        decode_utf8(
            self.src_bytes().subrange(
                self.spec_line_start(self.spec_line_of(p)) - self.spec_low(),
                p - self.spec_low(),
            ),
        ).len() as int
    }

    /// Gets the 0-indexed line number owning a position, by binary search
    /// over the line beginnings.
    pub fn find_line(&self, pos: Pos) -> (r: usize)
        requires
            self.wf(),
            self.span.spec_contains_pos(pos.0 as int),
        ensures
            self.line_index_ok(r as int, pos.0 as int),
            r == self.spec_line_of(pos.0 as int),
    {
        let mut lo: usize = 0;
        let mut hi: usize = self.lines.len() - 1;
        while lo < hi
            invariant
                self.wf(),
                lo <= hi < self.lines@.len(),
                self.lines@[lo as int].0 <= pos.0,
                hi + 1 < self.lines@.len() ==> pos.0 < self.lines@[hi as int + 1].0,
            decreases hi - lo,
        {
            let mid = lo + 1 + (hi - lo - 1) / 2;
            if self.lines[mid].0 <= pos.0 {
                lo = mid;
            } else {
                hi = mid - 1;
            }
        }
        proof {
            assert(self.line_index_ok(lo as int, pos.0 as int));
            self.lemma_line_of_unique(lo as int, self.spec_line_of(pos.0 as int), pos.0 as int);
        }
        lo
    }

    /// Gets the span representing a line, its terminator included. Line
    /// numbers are 0-indexed.
    pub fn line_span(&self, line: usize) -> (r: Span)
        requires
            self.wf(),
            line < self.lines@.len(),
        ensures
            r.low.0 == self.spec_line_start(line as int),
            r.high.0 == self.spec_line_end(line as int),
            r.wf(),
            self.span.low.0 <= r.low.0 && r.high.0 <= self.span.high.0,
    {
        let low = self.lines[line];
        let high = if line < self.lines.len() - 1 {
            self.lines[line + 1]
        } else {
            self.span.high
        };
        Span { low, high }
    }

    /// Some line owns every position within the file's span.
    proof fn lemma_line_exists_from(&self, j: int, p: int)
        requires
            self.wf(),
            0 <= j < self.lines@.len(),
            self.lines@[j].0 <= p,
            p <= self.spec_high(),
        ensures
            exists|k: int| j <= k && self.line_index_ok(k, p),
        decreases self.lines@.len() - j,
    {
        if j + 1 < self.lines@.len() && self.lines@[j + 1].0 <= p {
            self.lemma_line_exists_from(j + 1, p);
        } else {
            assert(self.line_index_ok(j, p));
        }
    }

    /// The line chosen for a position within the file's span really owns it.
    pub proof fn lemma_line_of_ok(&self, p: int)
        requires
            self.wf(),
            self.spec_low() <= p <= self.spec_high(),
        ensures
            self.line_index_ok(self.spec_line_of(p), p),
    {
        self.lemma_line_exists_from(0, p);
    }

    /// Resolved locations are ordered as their positions: of two positions in
    /// the file, the earlier one resolves to the lexicographically smaller
    /// (line, column) pair.
    pub proof fn lemma_line_col_order(&self, p1: int, p2: int)
        requires
            self.wf(),
            self.spec_low() <= p1 <= p2 <= self.spec_high(),
            is_char_boundary(self.src_bytes(), p1 - self.spec_low()),
            is_char_boundary(self.src_bytes(), p2 - self.spec_low()),
        ensures
            self.spec_line_of(p1) <= self.spec_line_of(p2),
            self.spec_line_of(p1) == self.spec_line_of(p2) ==> self.spec_col_of(p1)
                <= self.spec_col_of(p2),
    {
        self.lemma_line_of_ok(p1);
        self.lemma_line_of_ok(p2);
        let k1 = self.spec_line_of(p1);
        let k2 = self.spec_line_of(p2);
        if k2 < k1 {
            if k2 + 1 < k1 {
                assert(self.lines@[k2 + 1].0 < self.lines@[k1].0);
            }
            assert(false);
        }
        if k1 == k2 {
            let low = self.spec_low();
            let ls = self.spec_line_start(k1);
            self.lemma_src_valid();
            self.lemma_line_start_boundary(k1);
            lemma_boundary_in_subrange(self.src_bytes(), ls - low, p1 - low, p2 - low);
            let whole = self.src_bytes().subrange(ls - low, p2 - low);
            vstd::utf8::decode_utf8_split(whole, p1 - ls);
            assert(whole.subrange(0, p1 - ls) =~= self.src_bytes().subrange(ls - low, p1 - low));
        }
    }

    /// Line spans tile the file exactly: the first line starts at the file's
    /// low bound, every other line starts where its predecessor ends, and the
    /// last line ends at the file's high bound. Concatenating all line spans
    /// therefore reconstructs the file's span with no gaps or overlaps.
    pub proof fn lemma_line_spans_tile(&self, i: int)
        requires
            self.wf(),
            0 <= i < self.lines@.len(),
        ensures
            self.spec_line_start(0) == self.spec_low(),
            i > 0 ==> self.spec_line_start(i) == self.spec_line_end(i - 1),
            i + 1 == self.lines@.len() ==> self.spec_line_end(i) == self.spec_high(),
            self.spec_line_start(i) <= self.spec_line_end(i),
    {
    }

    /// A line holds no newline byte before the one that terminates it: every
    /// newline in the text begins a new line.
    pub proof fn lemma_no_newline_within_line(&self, i: int, p: int)
        requires
            self.wf(),
            0 <= i < self.lines@.len(),
            self.spec_line_start(i) <= p < self.spec_line_end(i) - 1,
        ensures
            self.src_bytes()[p - self.spec_low()] != NEWLINE,
    {
        if self.src_bytes()[p - self.spec_low()] == NEWLINE {
            let k = choose|k: int|
                1 <= k < self.lines@.len() && (#[trigger] self.lines@[k]).0 == self.spec_low() + (p
                    - self.spec_low()) + 1;
            assert(self.lines@[k].0 == p + 1);
            assert(k > i) by {
                if k <= i {
                    if k < i {
                        assert(self.lines@[k].0 < self.lines@[i].0);
                    }
                    assert(self.lines@[k].0 <= self.spec_line_start(i));
                    assert(false);
                }
            }
            assert(i + 1 < self.lines@.len());
            if i + 1 < k {
                assert(self.lines@[i + 1].0 < self.lines@[k].0);
            }
            assert(self.spec_line_end(i) <= self.lines@[k].0);
            assert(false);
        }
    }

    /// The source text of a file is valid UTF-8.
    pub proof fn lemma_src_valid(&self)
        ensures
            valid_utf8(self.src_bytes()),
    {
        vstd::utf8::encode_utf8_valid_utf8(self.source.source_view());
    }

    /// Every line beginning sits on a character boundary: it is the start of
    /// the text or follows a newline byte.
    pub proof fn lemma_line_start_boundary(&self, i: int)
        requires
            self.wf(),
            0 <= i < self.lines@.len(),
        ensures
            is_char_boundary(self.src_bytes(), self.spec_line_start(i) - self.spec_low()),
    {
        self.lemma_src_valid();
        if i == 0 {
            lemma_boundary_at_scalar_start(self.src_bytes(), 0);
        } else {
            assert(self.src_bytes()[self.lines@[i].0 - self.spec_low() - 1] == NEWLINE);
            lemma_boundary_after_ascii(
                self.src_bytes(),
                self.spec_line_start(i) - self.spec_low(),
            );
        }
    }

    /// Gets the line and column of a position. The column counts the Unicode
    /// scalar values on the line that precede the position, not bytes.
    pub fn find_line_col(&self, pos: Pos) -> (r: LineCol)
        requires
            self.wf(),
            self.span.spec_contains_pos(pos.0 as int),
            is_char_boundary(self.src_bytes(), pos.0 - self.span.low.0),
        ensures
            r.line == self.spec_line_of(pos.0 as int),
            r.column == self.spec_col_of(pos.0 as int),
    {
        let line = self.find_line(pos);
        let line_start = self.lines[line];
        let s = self.source.source();
        let bytes = s.as_bytes();
        let from = (line_start.0 - self.span.low.0) as usize;
        let to = (pos.0 - self.span.low.0) as usize;
        proof {
            assert(bytes@ == self.src_bytes());
            self.lemma_src_valid();
            self.lemma_line_start_boundary(line as int);
            lemma_boundary_in_subrange(self.src_bytes(), from as int, from as int, to as int);
            lemma_scalar_count_is_decoded_len(
                self.src_bytes().subrange(from as int, to as int),
            );
        }
        let column = count_scalars(bytes, from, to);
        LineCol { line, column }
    }

    /// Gets the source text of a span. The span must lie within this file and
    /// cut the text at character boundaries.
    pub fn source_slice(&self, span: Span) -> (r: &str)
        requires
            self.wf(),
            span.wf(),
            self.span.low.0 <= span.low.0,
            span.high.0 <= self.span.high.0,
            is_char_boundary(self.src_bytes(), span.low.0 - self.span.low.0),
            is_char_boundary(self.src_bytes(), span.high.0 - self.span.low.0),
        ensures
            r.spec_bytes() == self.src_bytes().subrange(
                span.low.0 - self.span.low.0,
                span.high.0 - self.span.low.0,
            ),
            r@ == decode_utf8(
                self.src_bytes().subrange(
                    span.low.0 - self.span.low.0,
                    span.high.0 - self.span.low.0,
                ),
            ),
    {
        let s = self.source.source();
        let begin = (span.low.0 - self.span.low.0) as usize;
        let end = (span.high.0 - self.span.low.0) as usize;
        proof {
            assert(s.spec_bytes() == self.src_bytes());
            self.lemma_src_valid();
            vstd::utf8::is_char_boundary_start_end_of_seq(self.src_bytes());
            lemma_boundary_in_subrange(
                self.src_bytes(),
                begin as int,
                end as int,
                self.src_bytes().len() as int,
            );
        }
        let (_, rest) = s.split_at(begin);
        proof {
            assert(rest.spec_bytes() =~= self.src_bytes().subrange(
                begin as int,
                self.src_bytes().len() as int,
            ));
        }
        let (mid, _) = rest.split_at(end - begin);
        proof {
            assert(mid.spec_bytes() =~= self.src_bytes().subrange(begin as int, end as int));
            vstd::utf8::encode_utf8_decode_utf8(mid@);
        }
        mid
    }

    /// Gets the source text of a line, without the `\r` and `\n` bytes that
    /// terminate it. Line numbers are 0-indexed.
    pub fn source_line(&self, line: usize) -> (r: &str)
        requires
            self.wf(),
            line < self.lines@.len(),
        ensures
            r.spec_bytes() == trim_line_end(
                self.src_bytes().subrange(
                    self.spec_line_start(line as int) - self.spec_low(),
                    self.spec_line_end(line as int) - self.spec_low(),
                ),
            ),
            r@ == decode_utf8(r.spec_bytes()),
    {
        let ls = self.line_span(line);
        let s = self.source.source();
        let bytes = s.as_bytes();
        let start = (ls.low.0 - self.span.low.0) as usize;
        let end0 = (ls.high.0 - self.span.low.0) as usize;
        let mut end = end0;
        proof {
            assert(bytes@ == self.src_bytes());
        }
        while end > start && (bytes[end - 1] == NEWLINE || bytes[end - 1] == CARRIAGE_RETURN)
            invariant
                start <= end <= end0,
                end0 <= bytes@.len(),
                trim_line_end(bytes@.subrange(start as int, end as int)) == trim_line_end(
                    bytes@.subrange(start as int, end0 as int),
                ),
                end < end0 ==> (bytes@[end as int] == NEWLINE || bytes@[end as int]
                    == CARRIAGE_RETURN),
            decreases end,
        {
            proof {
                assert(bytes@.subrange(start as int, end as int).drop_last() =~= bytes@.subrange(
                    start as int,
                    end as int - 1,
                ));
                assert(bytes@.subrange(start as int, end as int).last() == bytes@[end as int - 1]);
            }
            end = end - 1;
        }
        proof {
            let sub = bytes@.subrange(start as int, end as int);
            if end > start {
                assert(sub.last() == bytes@[end as int - 1]);
            }
            assert(trim_line_end(sub) == sub);
            self.lemma_src_valid();
            self.lemma_line_start_boundary(line as int);
            if end == end0 {
                if line + 1 < self.lines@.len() {
                    self.lemma_line_start_boundary(line as int + 1);
                } else {
                    vstd::utf8::is_char_boundary_start_end_of_seq(self.src_bytes());
                }
            } else {
                lemma_boundary_at_scalar_start(self.src_bytes(), end as int);
            }
        }
        self.source_slice(Span { low: ls.low, high: Pos(self.span.low.0 + (end as u32)) })
    }

    /// Gets the number of lines in the file.
    pub fn num_lines(&self) -> (r: usize)
        ensures
            r == self.lines@.len(),
    {
        self.lines.len()
    }

    /// The full source text.
    pub fn source(&self) -> (r: &str)
        ensures
            r@ == self.source.source_view(),
    {
        self.source.source()
    }

    /// The display name of the file.
    pub fn name(&self) -> (r: &str)
        ensures
            r@ == self.source.name_view(),
    {
        self.source.name()
    }
}

/// A 0-indexed line and column within a file.
#[derive(Copy, Clone, PartialEq, Eq, Structural, Hash, Debug)]
pub struct LineCol {
    /// The line number within the file (0-indexed).
    pub line: usize,

    /// The column within the line (0-indexed), counted in Unicode scalar
    /// values rather than bytes.
    pub column: usize,
}

/// A file, and a line and column within it.
#[derive(Debug)]
pub struct Loc<T: FileData> {
    pub file: Arc<File<T>>,
    pub position: LineCol,
}

impl<T: FileData> Clone for Loc<T> {
    /// Clones the location; the file record is shared, not copied.
    fn clone(&self) -> (r: Self)
        ensures
            r == *self,
    {
        Loc { file: self.file.clone(), position: self.position }
    }
}

impl<T: FileData> PartialEq for Loc<T> {
    /// Locations are equal when they name the same place in the registry:
    /// the same file span and the same resolved position.
    fn eq(&self, other: &Self) -> bool {
        self.position == other.position && self.file.span == other.file.span
    }
}

impl<T: FileData> Eq for Loc<T> {}

impl<T: FileData> vstd::std_specs::cmp::PartialEqSpecImpl for Loc<T> {
    open spec fn obeys_eq_spec() -> bool {
        true
    }

    open spec fn eq_spec(&self, other: &Self) -> bool {
        self.position == other.position && self.file.span == other.file.span
    }
}

/// A file, and a line and column range within it.
#[derive(Debug)]
pub struct SpanLoc<T: FileData> {
    pub file: Arc<File<T>>,
    pub begin: LineCol,
    pub end: LineCol,
}

impl<T: FileData> Clone for SpanLoc<T> {
    /// Clones the range; the file record is shared, not copied.
    fn clone(&self) -> (r: Self)
        ensures
            r == *self,
    {
        SpanLoc { file: self.file.clone(), begin: self.begin, end: self.end }
    }
}

impl<T: FileData> PartialEq for SpanLoc<T> {
    /// Ranges are equal when they name the same place in the registry: the
    /// same file span and the same resolved endpoints.
    fn eq(&self, other: &Self) -> bool {
        self.begin == other.begin && self.end == other.end && self.file.span == other.file.span
    }
}

impl<T: FileData> Eq for SpanLoc<T> {}

impl<T: FileData> vstd::std_specs::cmp::PartialEqSpecImpl for SpanLoc<T> {
    open spec fn obeys_eq_spec() -> bool {
        true
    }

    open spec fn eq_spec(&self, other: &Self) -> bool {
        self.begin == other.begin && self.end == other.end && self.file.span == other.file.span
    }
}

} // verus!
