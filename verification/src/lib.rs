//! A registry of source files that flattens all registered text into one
//! 32-bit coordinate space, so a position in any file is a single small
//! integer. Positions and spans can be resolved back to a file, line and
//! column, with columns counted in Unicode scalar values rather than bytes.

mod file;
mod pos;
mod render;
mod text;

pub use file::DefaultFileData;
pub use file::File;
pub use file::FileData;
pub use file::LineCol;
pub use file::Loc;
pub use file::SpanLoc;
pub use render::dec_chars;
pub use render::decimal_string;
pub use render::point_render;
pub use render::range_render;
pub use pos::Pos;
pub use pos::Span;
pub use pos::Spanned;
pub use text::CARRIAGE_RETURN;
pub use text::NEWLINE;

use std::sync::Arc;
use vstd::prelude::*;
use vstd::utf8::is_char_boundary;

verus! {

/// Relies on memchr::memchr_iter: the iterator yields exactly the indexes at
/// which the needle byte occurs in the haystack, in strictly increasing
/// order.
#[verifier::external_body]
fn byte_positions(needle: u8, haystack: &[u8]) -> (r: Vec<usize>)
    ensures
        forall|k: int|
            0 <= k < r@.len() ==> #[trigger] r@[k] < haystack@.len() && haystack@[r@[k] as int]
                == needle,
        forall|k1: int, k2: int| 0 <= k1 < k2 < r@.len() ==> r@[k1] < r@[k2],
        forall|i: int|
            0 <= i < haystack@.len() && #[trigger] haystack@[i] == needle ==> exists|k: int|
                0 <= k < r@.len() && r@[k] == i,
{
    memchr::memchr_iter(needle, haystack).collect()
}

/// A data structure recording source files for position lookup. It allocates
/// each registered file a disjoint range of the shared coordinate space,
/// leaving a one-unit reserved gap before every file.
pub struct CodeMap<T: FileData = DefaultFileData> {
    /// The allocation cursor: the high bound of the last registered file, or
    /// zero when no file is registered yet.
    pub end_pos: Pos,

    /// The registered files, ordered by their disjoint spans.
    pub files: Vec<Arc<File<T>>>,
}

impl<T: FileData> CodeMap<T> {
    /// Well-formedness: every file record is well formed, each file starts
    /// exactly one unit past the previous file's high bound (the first at
    /// one), and the cursor sits at the last file's high bound.
    pub open spec fn wf(&self) -> bool {
        &&& forall|i: int| 0 <= i < self.files@.len() ==> #[trigger] self.files@[i].wf()
        &&& forall|i: int| 0 <= i < self.files@.len() ==> (#[trigger] self.files@[i].span).wf()
        &&& self.files@.len() > 0 ==> self.files@[0].span.low.0 == 1
        &&& forall|i: int, j: int|
            0 <= i && j == i + 1 && j < self.files@.len() ==> (
            #[trigger] self.files@[i].span).high.0 + 1 == (#[trigger] self.files@[j].span).low.0
        &&& self.end_pos.0 == if self.files@.len() == 0 {
            0int
        } else {
            self.files@[self.files@.len() - 1].span.high.0 as int
        }
    }

    /// True when some registered file's span contains position `p`.
    pub open spec fn spec_has_file(&self, p: int) -> bool {
        exists|i: int|
            0 <= i < self.files@.len() && (#[trigger] self.files@[i].span).spec_contains_pos(p)
    }

    /// The index of the registered file whose span contains position `p`.
    pub open spec fn spec_file_index(&self, p: int) -> int {
        choose|i: int|
            0 <= i < self.files@.len() && (#[trigger] self.files@[i].span).spec_contains_pos(p)
    }

    /// The registered file whose span contains position `p`.
    pub open spec fn spec_file_at(&self, p: int) -> Arc<File<T>> {
        self.files@[self.spec_file_index(p)]
    }

    /// Earlier files end strictly before later files begin: between two
    /// registered files there is always at least the one-unit reserved gap.
    pub proof fn lemma_files_disjoint(&self, i: int, j: int)
        requires
            self.wf(),
            0 <= i < j < self.files@.len(),
        ensures
            self.files@[i].span.high.0 < self.files@[j].span.low.0,
        decreases j - i,
    {
        if i + 1 < j {
            self.lemma_files_disjoint(i, j - 1);
            assert(self.files@[j - 1].span.wf());
            assert(self.files@[j - 1].span.high.0 + 1 == self.files@[j].span.low.0);
        } else {
            assert(self.files@[i].span.high.0 + 1 == self.files@[j].span.low.0);
        }
    }

    /// No position belongs to two registered files.
    pub proof fn lemma_file_index_unique(&self, i: int, j: int, p: int)
        requires
            self.wf(),
            0 <= i < self.files@.len(),
            0 <= j < self.files@.len(),
            self.files@[i].span.spec_contains_pos(p),
            self.files@[j].span.spec_contains_pos(p),
        ensures
            i == j,
    {
        if i < j {
            self.lemma_files_disjoint(i, j);
        }
        if j < i {
            self.lemma_files_disjoint(j, i);
        }
    }

    /// Creates an empty registry.
    pub fn new() -> (r: Self)
        ensures
            r.wf(),
            r.files@.len() == 0,
            r.end_pos.0 == 0,
    {
        CodeMap { end_pos: Pos(0), files: Vec::new() }
    }

    /// Adds a file with the given name and contents, allocating it the next
    /// disjoint range of the coordinate space, one unit past the cursor.
    ///
    /// Use the returned record and its `span` to create spans representing
    /// substrings of the file.
    pub fn add_file(&mut self, source: T) -> (file: Arc<File<T>>)
        requires
            old(self).wf(),
            old(self).end_pos.0 + 1 + vstd::utf8::encode_utf8(source.source_view()).len()
                <= u32::MAX,
        ensures
            final(self).wf(),
            final(self).files@ == old(self).files@.push(file),
            final(self).end_pos == file.span.high,
            file.wf(),
            file.source == source,
            file.span.low.0 == old(self).end_pos.0 + 1,
            file.span.high.0 == file.span.low.0 + file.src_bytes().len(),
    {
        let low = Pos(self.end_pos.0 + 1);
        let ghost src_bytes = vstd::utf8::encode_utf8(source.source_view());
        let newlines = byte_positions(NEWLINE, source.source().as_bytes());
        let n = source.source().len();
        let high = Pos(low.0 + (n as u32));
        let mut lines: Vec<Pos> = Vec::new();
        lines.push(low);
        let mut k: usize = 0;
        while k < newlines.len()
            invariant
                lines@.len() == k + 1,
                k <= newlines@.len(),
                lines@[0] == low,
                low.0 + n <= u32::MAX,
                forall|j: int| 0 <= j < newlines@.len() ==> #[trigger] newlines@[j] < n,
                forall|j: int|
                    1 <= j < lines@.len() ==> (#[trigger] lines@[j]).0 == low.0 + newlines@[j - 1]
                        + 1,
            decreases newlines@.len() - k,
        {
            let p = newlines[k];
            lines.push(Pos(low.0 + (p as u32) + 1));
            k = k + 1;
        }
        let file = Arc::new(File { span: Span { low, high }, source, lines });
        proof {
            assert(file.src_bytes() == src_bytes);
            assert forall|i: int|
                0 <= i < file.src_bytes().len() && #[trigger] file.src_bytes()[i]
                    == NEWLINE implies exists|k2: int|
                1 <= k2 < file.lines@.len() && (#[trigger] file.lines@[k2]).0 == file.spec_low() + i
                    + 1 by {
                let j = choose|j: int| 0 <= j < newlines@.len() && newlines@[j] == i;
                assert(file.lines@[j + 1].0 == file.spec_low() + i + 1);
            }
            assert(file.wf());
        }
        self.files.push(file.clone());
        self.end_pos = high;
        proof {
            assert(self.files@ == old(self).files@.push(file));
            assert forall|i: int| 0 <= i < self.files@.len() implies #[trigger] self.files@[i].wf()
                && (#[trigger] self.files@[i].span).wf() by {
                if i < old(self).files@.len() {
                    assert(old(self).files@[i].wf());
                    assert((old(self).files@[i].span).wf());
                }
            }
        }
        file
    }

    /// Looks up the file that contains the specified position, by binary
    /// search over the files' disjoint spans.
    pub fn find_file(&self, pos: Pos) -> (r: &Arc<File<T>>)
        requires
            self.wf(),
            self.spec_has_file(pos.0 as int),
        ensures
            *r == self.spec_file_at(pos.0 as int),
            r.span.spec_contains_pos(pos.0 as int),
            r.wf(),
    {
        let mut lo: usize = 0;
        let mut hi: usize = self.files.len();
        while lo < hi
            invariant
                self.wf(),
                lo <= hi <= self.files@.len(),
                lo > 0 ==> self.files@[lo as int - 1].span.high.0 < pos.0,
                hi < self.files@.len() ==> pos.0 <= self.files@[hi as int].span.high.0,
            decreases hi - lo,
        {
            let mid = lo + (hi - lo) / 2;
            if self.files[mid].span.high.0 < pos.0 {
                lo = mid + 1;
            } else {
                hi = mid;
            }
        }
        proof {
            let p = pos.0 as int;
            let w = choose|i: int|
                0 <= i < self.files@.len() && (#[trigger] self.files@[i].span).spec_contains_pos(p);
            if w < lo as int - 1 {
                self.lemma_files_disjoint(w, lo as int - 1);
                assert(self.files@[lo as int - 1].span.wf());
                assert(false);
            }
            if w == lo as int - 1 {
                assert(false);
            }
            if (lo as int) < w {
                self.lemma_files_disjoint(lo as int, w);
                assert(false);
            }
            assert(w == lo as int);
            self.lemma_file_index_unique(lo as int, self.spec_file_index(p), p);
        }
        &self.files[lo]
    }

    /// Gets the file, line and column represented by a position.
    pub fn look_up_pos(&self, pos: Pos) -> (r: Loc<T>)
        requires
            self.wf(),
            self.spec_has_file(pos.0 as int),
            is_char_boundary(
                self.spec_file_at(pos.0 as int).src_bytes(),
                pos.0 - self.spec_file_at(pos.0 as int).span.low.0,
            ),
        ensures
            r.file == self.spec_file_at(pos.0 as int),
            r.position.line == r.file.spec_line_of(pos.0 as int),
            r.position.column == r.file.spec_col_of(pos.0 as int),
    {
        let file = self.find_file(pos);
        let position = file.find_line_col(pos);
        Loc { file: file.clone(), position }
    }

    /// Gets the file and the line and column ranges represented by a span.
    /// Both endpoints are resolved against the file owning the span's low
    /// bound, so the span must not cross a file boundary.
    pub fn look_up_span(&self, span: Span) -> (r: SpanLoc<T>)
        requires
            self.wf(),
            span.wf(),
            self.spec_has_file(span.low.0 as int),
            span.high.0 <= self.spec_file_at(span.low.0 as int).span.high.0,
            is_char_boundary(
                self.spec_file_at(span.low.0 as int).src_bytes(),
                span.low.0 - self.spec_file_at(span.low.0 as int).span.low.0,
            ),
            is_char_boundary(
                self.spec_file_at(span.low.0 as int).src_bytes(),
                span.high.0 - self.spec_file_at(span.low.0 as int).span.low.0,
            ),
        ensures
            r.file == self.spec_file_at(span.low.0 as int),
            r.begin.line == r.file.spec_line_of(span.low.0 as int),
            r.begin.column == r.file.spec_col_of(span.low.0 as int),
            r.end.line == r.file.spec_line_of(span.high.0 as int),
            r.end.column == r.file.spec_col_of(span.high.0 as int),
            r.begin.line < r.end.line || (r.begin.line == r.end.line && r.begin.column
                <= r.end.column),
    {
        let file = self.find_file(span.low());
        let begin = file.find_line_col(span.low());
        let end = file.find_line_col(span.high());
        proof {
            file.lemma_line_col_order(span.low.0 as int, span.high.0 as int);
        }
        SpanLoc { file: file.clone(), begin, end }
    }
}

impl<T: FileData> Default for CodeMap<T> {
    /// The default registry is empty.
    fn default() -> (r: Self)
        ensures
            r.wf(),
            r.files@.len() == 0,
            r.end_pos.0 == 0,
    {
        Self::new()
    }
}

} // verus!
