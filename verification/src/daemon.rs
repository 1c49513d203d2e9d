//! The readiness handshake between a daemonizing parent and its lock child.
//!
//! The child writes [`READY_MESSAGE`] on one line once every output is covered;
//! the parent accepts exactly that line, allowing trailing whitespace.

use vstd::prelude::*;

verus! {

/// The line that the lock child writes once the session is locked.
pub const READY_MESSAGE: &'static str = "LUMA_LOCK_READY";

/// A Unicode `White_Space` character, which `str::trim_end` removes.
pub open spec fn is_white_space(c: char) -> bool {
    let v = c as u32;
    ||| 0x09 <= v <= 0x0d
    ||| v == 0x20
    ||| v == 0x85
    ||| v == 0xa0
    ||| v == 0x1680
    ||| 0x2000 <= v <= 0x200a
    ||| v == 0x2028
    ||| v == 0x2029
    ||| v == 0x202f
    ||| v == 0x205f
    ||| v == 0x3000
}

/// A line that, once trailing whitespace is removed, is exactly the ready message.
pub open spec fn is_ready_line(line: Seq<char>) -> bool {
    let ready = READY_MESSAGE@;
    &&& line.len() >= ready.len()
    &&& line.take(ready.len() as int) == ready
    &&& forall|i: int| ready.len() <= i < line.len() ==> is_white_space(#[trigger] line[i])
}

/// The readiness line that the lock child writes.
pub fn ready_message() -> (message: &'static str)
    ensures
        message@ == READY_MESSAGE@,
{
    READY_MESSAGE
}

/// Whether `line`, with trailing whitespace removed, equals the ready message.
pub fn is_ready_line_text(line: &str) -> (ready: bool)
    ensures
        ready == is_ready_line(line@),
{
    proof {
        reveal_strlit("LUMA_LOCK_READY");
    }
    let expected = READY_MESSAGE;
    let expected_length = expected.unicode_len();
    let length = line.unicode_len();
    if length < expected_length {
        return false;
    }
    let mut index: usize = 0;
    while index < expected_length
        invariant
            index <= expected_length,
            expected_length == expected@.len(),
            expected@ == READY_MESSAGE@,
            expected_length <= length,
            length == line@.len(),
            forall|j: int| 0 <= j < index ==> line@[j] == expected@[j],
        decreases expected_length - index,
    {
        if line.get_char(index) != expected.get_char(index) {
            assert(line@.take(expected_length as int)[index as int] != expected@[index as int]);
            return false;
        }
        index = index + 1;
    }
    assert(line@.take(expected_length as int) =~= expected@);
    while index < length
        invariant
            expected_length <= index <= length,
            expected_length == READY_MESSAGE@.len(),
            length == line@.len(),
            line@.take(expected_length as int) == READY_MESSAGE@,
            forall|j: int| expected_length <= j < index ==> is_white_space(#[trigger] line@[j]),
        decreases length - index,
    {
        if !white_space(line.get_char(index)) {
            return false;
        }
        index = index + 1;
    }
    true
}

/// Whether `c` has the Unicode `White_Space` property.
fn white_space(c: char) -> (white: bool)
    ensures
        white == is_white_space(c),
{
    let v = c as u32;
    (0x09 <= v && v <= 0x0d) || v == 0x20 || v == 0x85 || v == 0xa0 || v == 0x1680 || (0x2000
        <= v && v <= 0x200a) || v == 0x2028 || v == 0x2029 || v == 0x202f || v == 0x205f || v
        == 0x3000
}

} // verus!
