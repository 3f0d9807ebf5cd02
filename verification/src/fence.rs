//! Code fences, as a grammar on the bytes of a block.
//!
//! A fenced block opens with a run of at least three backticks or tildes.
//! It is closed when its last line holds, after at most three spaces, a run
//! of the same character that is at least as long, followed by nothing but
//! spaces and tabs. A block that opens a fence and never closes it runs to
//! the end of the text: its fences are unbalanced.

use vstd::prelude::*;

verus! {

/// Whether `b` is a backtick or a tilde.
pub open spec fn is_fence_byte(b: u8) -> bool {
    b == 0x60 || b == 0x7e
}

/// The length of the longest run of the byte `b` that starts at `from` and
/// ends before `to`.
pub open spec fn byte_run(bytes: Seq<u8>, from: int, to: int, b: u8) -> nat
    decreases to - from,
{
    if 0 <= from < to <= bytes.len() && bytes[from] == b {
        1 + byte_run(bytes, from + 1, to, b)
    } else {
        0
    }
}

/// Where the last line of `bytes[from..to]` starts: after its last line
/// feed, or at `from` where it has none.
pub open spec fn last_line_start(bytes: Seq<u8>, from: int, to: int) -> int
    decreases to - from,
{
    if from >= to || to > bytes.len() {
        from
    } else if bytes[to - 1] == 0x0a {
        to
    } else {
        last_line_start(bytes, from, to - 1)
    }
}

/// Whether `bytes[from..to]` holds only spaces and tabs.
pub open spec fn only_blanks(bytes: Seq<u8>, from: int, to: int) -> bool {
    forall|k: int| from <= k < to ==> #[trigger] bytes[k] == 0x20 || bytes[k] == 0x09
}

/// Whether the block `bytes[start..end]` opens with a code fence.
pub open spec fn opens_fence(bytes: Seq<u8>, start: int, end: int) -> bool {
    &&& 0 <= start < end <= bytes.len()
    &&& is_fence_byte(bytes[start])
    &&& byte_run(bytes, start, end, bytes[start]) >= 3
}

/// Whether the fence that opens the block `bytes[start..end]` is closed on
/// the block's last line.
pub open spec fn fence_closed(bytes: Seq<u8>, start: int, end: int) -> bool {
    let opening = byte_run(bytes, start, end, bytes[start]);
    let line = last_line_start(bytes, start, end);
    let indent = byte_run(bytes, line, end, 0x20);
    let closing = byte_run(bytes, line + indent, end, bytes[start]);
    &&& 0 <= start < end <= bytes.len()
    &&& line > start
    &&& indent <= 3
    &&& closing >= opening
    &&& only_blanks(bytes, line + indent + closing, end)
}

/// The end of the longest run of the byte `b` that starts at `from` and
/// ends before `to`.
pub(crate) fn scan_bytes(bytes: &[u8], from: usize, to: usize, b: u8) -> (end: usize)
    requires
        from <= to <= bytes@.len(),
    ensures
        end == from + byte_run(bytes@, from as int, to as int, b),
        from <= end <= to,
{
    let mut i: usize = from;
    while i < to && bytes[i] == b
        invariant
            from <= i <= to <= bytes@.len(),
            from + byte_run(bytes@, from as int, to as int, b) == i + byte_run(
                bytes@,
                i as int,
                to as int,
                b,
            ),
        decreases to - i,
    {
        i += 1;
    }
    i
}

/// Where the last line of `bytes[from..to]` starts.
pub(crate) fn find_last_line(bytes: &[u8], from: usize, to: usize) -> (line: usize)
    requires
        from <= to <= bytes@.len(),
    ensures
        line == last_line_start(bytes@, from as int, to as int),
        from <= line <= to,
{
    let mut i: usize = to;
    while i > from && bytes[i - 1] != 0x0a
        invariant
            from <= i <= to <= bytes@.len(),
            last_line_start(bytes@, from as int, to as int) == last_line_start(
                bytes@,
                from as int,
                i as int,
            ),
        decreases i - from,
    {
        i -= 1;
    }
    i
}

/// Decides whether `bytes[from..to]` holds only spaces and tabs.
pub(crate) fn blanks_only(bytes: &[u8], from: usize, to: usize) -> (yes: bool)
    requires
        from <= to <= bytes@.len(),
    ensures
        yes == only_blanks(bytes@, from as int, to as int),
{
    let mut i: usize = from;
    while i < to
        invariant
            from <= i <= to <= bytes@.len(),
            only_blanks(bytes@, from as int, i as int),
        decreases to - i,
    {
        if bytes[i] != 0x20 && bytes[i] != 0x09 {
            return false;
        }
        i += 1;
    }
    true
}

/// Decides whether the block `bytes[start..end]` opens with a code fence.
pub fn fence_opens(bytes: &[u8], start: usize, end: usize) -> (yes: bool)
    ensures
        yes == opens_fence(bytes@, start as int, end as int),
{
    if start >= end || end > bytes.len() {
        return false;
    }
    let mark = bytes[start];
    if mark != 0x60 && mark != 0x7e {
        return false;
    }
    scan_bytes(bytes, start, end, mark) - start >= 3
}

/// Decides whether the fence that opens the block `bytes[start..end]` is
/// closed on the block's last line.
pub fn fence_closes(bytes: &[u8], start: usize, end: usize) -> (yes: bool)
    ensures
        yes == fence_closed(bytes@, start as int, end as int),
{
    if start >= end || end > bytes.len() {
        return false;
    }
    let mark = bytes[start];
    let opening = scan_bytes(bytes, start, end, mark) - start;
    let line = find_last_line(bytes, start, end);
    let fence = scan_bytes(bytes, line, end, 0x20);
    let after = scan_bytes(bytes, fence, end, mark);
    line > start && fence - line <= 3 && after - fence >= opening && blanks_only(bytes, after, end)
}

} // verus!
