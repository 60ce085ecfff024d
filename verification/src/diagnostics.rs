//! Diagnostics: mapping a byte-offset span back to the source line(s)
//! that contain it, and rendering a caret underline aligned to the span.
//!
//! The basis is a precomputed ascending list of newline byte offsets,
//! with a synthetic `-1` boundary before the first line; a binary search
//! over it finds the line(s) containing a span. The line table uses
//! `i32` offsets to make room for that synthetic boundary, so sources
//! are limited to `i32::MAX` bytes here.

use vstd::prelude::*;
use crate::span::Span;

verus! {

/// A well-formed line table for a source of `len` bytes: the synthetic
/// boundary, then the offsets of every newline byte, in ascending order.
pub open spec fn line_table_wf(lines: Seq<i32>, s: Seq<u8>) -> bool {
    &&& lines.len() >= 1
    &&& lines[0] == -1
    &&& forall|k1: int, k2: int| 0 <= k1 < k2 < lines.len() ==> #[trigger] lines[k1] < #[trigger] lines[k2]
    &&& forall|k: int| 1 <= k < lines.len() ==> 0 <= #[trigger] lines[k] < s.len() && s[lines[k]
        as int] == 10
    &&& forall|i: int| 0 <= i < s.len() && s[i] == 10 ==> lines.contains(i as i32)
}

/// The ascending newline offsets of `input`, preceded by the synthetic
/// `-1` boundary that stands before the first line.
pub fn count_lines(input: &[u8]) -> (lines: Vec<i32>)
    requires
        input@.len() < 0x7fff_ffff,
    ensures
        line_table_wf(lines@, input@),
{
    let mut lines: Vec<i32> = Vec::new();
    lines.push(-1);
    let mut index: usize = 0;
    while index < input.len()
        invariant
            input@.len() < 0x7fff_ffff,
            index <= input@.len(),
            lines@.len() >= 1,
            lines@[0] == -1,
            forall|k: int| 0 <= k < lines@.len() ==> #[trigger] lines@[k] < index as i32,
            forall|k1: int, k2: int|
                0 <= k1 < k2 < lines@.len() ==> #[trigger] lines@[k1] < #[trigger] lines@[k2],
            forall|k: int|
                1 <= k < lines@.len() ==> 0 <= #[trigger] lines@[k] < input@.len()
                    && input@[lines@[k] as int] == 10,
            forall|i: int|
                0 <= i < index && input@[i] == 10 ==> lines@.contains(i as i32),
        decreases input@.len() - index,
    {
        let ghost prev = lines@;
        if input[index] == 10 {
            lines.push(index as i32);
        }
        proof {
            assert forall|i: int| 0 <= i <= index && input@[i] == 10 implies lines@.contains(
                i as i32,
            ) by {
                if i == index {
                    assert(lines@[lines@.len() - 1] == index as i32);
                } else {
                    assert(prev.contains(i as i32));
                    let k = choose|k: int| 0 <= k < prev.len() && prev[k] == i as i32;
                    assert(lines@[k] == i as i32);
                }
            }
        }
        index += 1;
    }
    lines
}

/// The number of entries of `lines` strictly below `x`; with a strictly
/// ascending table this is also where an entry equal to `x` stands.
pub fn lower_bound(lines: &Vec<i32>, x: i32) -> (r: usize)
    requires
        forall|k1: int, k2: int|
            0 <= k1 < k2 < lines@.len() ==> #[trigger] lines@[k1] < #[trigger] lines@[k2],
    ensures
        r <= lines@.len(),
        forall|k: int| 0 <= k < r ==> #[trigger] lines@[k] < x,
        forall|k: int| r <= k < lines@.len() ==> #[trigger] lines@[k] >= x,
{
    let mut low: usize = 0;
    let mut high: usize = lines.len();
    while low < high
        invariant
            low <= high <= lines@.len(),
            forall|k1: int, k2: int|
                0 <= k1 < k2 < lines@.len() ==> #[trigger] lines@[k1] < #[trigger] lines@[k2],
            forall|k: int| 0 <= k < low ==> #[trigger] lines@[k] < x,
            forall|k: int| high <= k < lines@.len() ==> #[trigger] lines@[k] >= x,
        decreases high - low,
    {
        let mid = low + (high - low) / 2;
        if lines[mid] < x {
            low = mid + 1;
        } else {
            high = mid;
        }
    }
    low
}

/// The byte range `[line_start, line_end)` of the source line(s) covering
/// a span: from the start of the line holding `span.start` through the
/// end of the line holding `span.end - 1` (the end of input when the last
/// covered line has no closing newline).
///
/// The span must be nonempty: the parser's result spans always are,
/// since every attempt consumes at least one token. When the span's
/// last byte is itself a newline, `line_end` stands just before it, one
/// short of `span.end`.
pub fn line_range(input: &[u8], lines: &Vec<i32>, span: Span) -> (r: (usize, usize))
    requires
        input@.len() < 0x7fff_ffff,
        line_table_wf(lines@, input@),
        1 <= span.end <= input@.len(),
        span.start < span.end,
    ensures
        r.0 <= span.start,
        r.0 == 0 || input@[r.0 - 1] == 10,
        forall|i: int| r.0 <= i < span.start ==> input@[i] != 10,
        span.end - 1 <= r.1 <= input@.len(),
        r.1 == input@.len() || input@[r.1 as int] == 10,
        forall|i: int| span.end - 1 <= i < r.1 ==> input@[i] != 10,
{
    let low = lower_bound(lines, span.start as i32);
    // lines[0] == -1 < span.start, so the search lands past it
    assert(lines@[0] < span.start as i32);
    let line_start = (lines[low - 1] + 1) as usize;
    proof {
        assert(lines@[low - 1] < span.start as i32);
        if line_start != 0 {
            assert(input@[line_start - 1] == 10);
        }
        assert forall|i: int| line_start <= i < span.start implies input@[i] != 10 by {
            if input@[i] == 10 {
                assert(lines@.contains(i as i32));
                let k = choose|k: int| 0 <= k < lines@.len() && lines@[k] == i as i32;
                assert(lines@[k] >= line_start as i32);
                assert(k >= low);
                assert(lines@[k] >= span.start as i32);
            }
        }
    }
    let e = span.end - 1;
    let high = lower_bound(lines, e as i32);
    let line_end = if high < lines.len() {
        proof {
            assert(lines@[high as int] >= e as i32);
            assert(high >= 1);
            assert(lines@[high as int] < input@.len());
            assert forall|i: int| e <= i < lines@[high as int] implies input@[i] != 10 by {
                if input@[i] == 10 {
                    assert(lines@.contains(i as i32));
                    let k = choose|k: int| 0 <= k < lines@.len() && lines@[k] == i as i32;
                    assert(k >= high);
                    assert(lines@[k] >= lines@[high as int]);
                }
            }
        }
        lines[high] as usize
    } else {
        proof {
            assert forall|i: int| e <= i < input@.len() implies input@[i] != 10 by {
                if input@[i] == 10 {
                    assert(lines@.contains(i as i32));
                    let k = choose|k: int| 0 <= k < lines@.len() && lines@[k] == i as i32;
                    assert(lines@[k] >= e as i32);
                    assert(k < lines@.len());
                }
            }
        }
        input.len()
    };
    (line_start, line_end)
}

/// The caret underline for a span within its excerpt `[line_start,
/// line_end)`: a space for each byte before and after the span, and a
/// caret (`^`, byte 94) exactly beneath each byte the span covers.
pub fn caret_line(line_start: usize, line_end: usize, span: Span) -> (v: Vec<u8>)
    requires
        line_start <= span.start,
        span.start <= span.end <= line_end,
    ensures
        v@.len() == line_end - line_start,
        forall|k: int|
            0 <= k < v@.len() ==> #[trigger] v@[k] == if span.start - line_start <= k < span.end
                - line_start {
                94u8
            } else {
                32u8
            },
{
    let mut v: Vec<u8> = Vec::new();
    let mut i = line_start;
    while i < line_end
        invariant
            line_start <= i <= line_end,
            line_start <= span.start <= span.end <= line_end,
            v@.len() == i - line_start,
            forall|k: int|
                0 <= k < v@.len() ==> #[trigger] v@[k] == if span.start - line_start <= k
                    < span.end - line_start {
                    94u8
                } else {
                    32u8
                },
        decreases line_end - i,
    {
        if span.start <= i && i < span.end {
            v.push(94);
        } else {
            v.push(32);
        }
        i += 1;
    }
    v
}

/// The bytes of the excerpt `[from, to)` of the source.
pub fn excerpt(input: &[u8], from: usize, to: usize) -> (v: Vec<u8>)
    requires
        from <= to <= input@.len(),
    ensures
        v@ == input@.subrange(from as int, to as int),
{
    let s = vstd::slice::slice_subrange(input, from, to);
    let v = vstd::slice::slice_to_vec(s);
    v
}

} // verus!
