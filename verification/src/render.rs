//! The canonical textual rendering of resolved locations: `name:line:column`
//! with 1-indexed line and column, and `name:line:column: line:column` for a
//! non-empty range.

use vstd::prelude::*;
use vstd::string::StringExecFns;

use crate::file::FileData;
use crate::file::Loc;
use crate::file::SpanLoc;

verus! {

/// The decimal digit character for a value below ten.
pub open spec fn dec_digit(d: int) -> char {
    if d == 0 {
        '0'
    } else if d == 1 {
        '1'
    } else if d == 2 {
        '2'
    } else if d == 3 {
        '3'
    } else if d == 4 {
        '4'
    } else if d == 5 {
        '5'
    } else if d == 6 {
        '6'
    } else if d == 7 {
        '7'
    } else if d == 8 {
        '8'
    } else {
        '9'
    }
}

/// The decimal rendering of a non-negative integer, most significant digit
/// first, without leading zeroes.
pub open spec fn dec_chars(n: int) -> Seq<char>
    recommends
        n >= 0,
    decreases n,
{
    if n < 10 {
        seq![dec_digit(n)]
    } else {
        dec_chars(n / 10).push(dec_digit(n % 10))
    }
}

/// The rendering of a point: `name:line:column`.
pub open spec fn point_render(name: Seq<char>, line: int, column: int) -> Seq<char> {
    name + seq![':'] + dec_chars(line) + seq![':'] + dec_chars(column)
}

/// The rendering of a non-empty range: the point rendering of its begin,
/// then `: `, then `line:column` of its end.
pub open spec fn range_render(
    name: Seq<char>,
    begin_line: int,
    begin_column: int,
    end_line: int,
    end_column: int,
) -> Seq<char> {
    point_render(name, begin_line, begin_column) + seq![':'] + seq![' '] + dec_chars(end_line)
        + seq![':'] + dec_chars(end_column)
}

/// One decimal digit as text.
fn digit_str(d: u64) -> (r: &'static str)
    requires
        d < 10,
    ensures
        r@.len() == 1,
        r@[0] == dec_digit(d as int),
{
    proof {
        reveal_strlit("0");
        reveal_strlit("1");
        reveal_strlit("2");
        reveal_strlit("3");
        reveal_strlit("4");
        reveal_strlit("5");
        reveal_strlit("6");
        reveal_strlit("7");
        reveal_strlit("8");
        reveal_strlit("9");
    }
    match d {
        0 => "0",
        1 => "1",
        2 => "2",
        3 => "3",
        4 => "4",
        5 => "5",
        6 => "6",
        7 => "7",
        8 => "8",
        _ => "9",
    }
}

/// Renders a non-negative integer in decimal.
pub fn decimal_string(n: u64) -> (r: String)
    ensures
        r@ == dec_chars(n as int),
    decreases n,
{
    if n < 10 {
        let s = digit_str(n).to_owned();
        proof {
            assert(s@ =~= dec_chars(n as int));
        }
        s
    } else {
        let front = decimal_string(n / 10);
        let s = front.concat(digit_str(n % 10));
        proof {
            assert(s@ =~= dec_chars(n as int));
        }
        s
    }
}

impl<T: FileData> Loc<T> {
    /// Formats the location as `filename:line:column`, with a 1-indexed line
    /// and column.
    pub fn render(&self) -> (r: String)
        requires
            self.position.line < usize::MAX,
            self.position.column < usize::MAX,
        ensures
            r@ == point_render(
                self.file.source.name_view(),
                self.position.line + 1,
                self.position.column + 1,
            ),
    {
        let mut s = self.file.name().to_owned();
        s.append(":");
        let line_str = decimal_string((self.position.line as u64) + 1);
        s.append(line_str.as_str());
        s.append(":");
        let column_str = decimal_string((self.position.column as u64) + 1);
        s.append(column_str.as_str());
        proof {
            reveal_strlit(":");
            assert(s@ =~= point_render(
                self.file.source.name_view(),
                self.position.line + 1,
                self.position.column + 1,
            ));
        }
        s
    }
}

impl<T: FileData> SpanLoc<T> {
    /// Formats the range as `filename:start_line:start_column: end_line:end_column`,
    /// or, if the range is zero-length, as `filename:line:column`, with
    /// 1-indexed lines and columns.
    pub fn render(&self) -> (r: String)
        requires
            self.begin.line < usize::MAX,
            self.begin.column < usize::MAX,
            self.end.line < usize::MAX,
            self.end.column < usize::MAX,
        ensures
            self.begin == self.end ==> r@ == point_render(
                self.file.source.name_view(),
                self.begin.line + 1,
                self.begin.column + 1,
            ),
            self.begin != self.end ==> r@ == range_render(
                self.file.source.name_view(),
                self.begin.line + 1,
                self.begin.column + 1,
                self.end.line + 1,
                self.end.column + 1,
            ),
    {
        let mut s = self.file.name().to_owned();
        s.append(":");
        let begin_line_str = decimal_string((self.begin.line as u64) + 1);
        s.append(begin_line_str.as_str());
        s.append(":");
        let begin_column_str = decimal_string((self.begin.column as u64) + 1);
        s.append(begin_column_str.as_str());
        proof {
            reveal_strlit(":");
            reveal_strlit(": ");
        }
        if self.begin == self.end {
            proof {
                assert(s@ =~= point_render(
                    self.file.source.name_view(),
                    self.begin.line + 1,
                    self.begin.column + 1,
                ));
            }
            s
        } else {
            s.append(": ");
            let end_line_str = decimal_string((self.end.line as u64) + 1);
            s.append(end_line_str.as_str());
            s.append(":");
            let end_column_str = decimal_string((self.end.column as u64) + 1);
            s.append(end_column_str.as_str());
            proof {
                assert(s@ =~= range_render(
                    self.file.source.name_view(),
                    self.begin.line + 1,
                    self.begin.column + 1,
                    self.end.line + 1,
                    self.end.column + 1,
                ));
            }
            s
        }
    }
}

} // verus!
