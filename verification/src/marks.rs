//! The three text markers that the filter recognises.

use vstd::prelude::*;

verus! {

/// Every block of the feed starts with this marker.
pub open spec fn begin_marker() -> Seq<char> {
    "BEGIN:"@
}

/// A block whose text holds this marker is a cancelled event.
pub open spec fn cancel_marker() -> Seq<char> {
    "STATUS:CANCELLED"@
}

/// The closing tag that every filtered feed must end with.
pub open spec fn end_tag() -> Seq<char> {
    "END:VCALENDAR"@
}

/// The lengths of the three markers, and that the closing tag
/// holds no newline (the tag is written on a line of its own).
pub proof fn marker_facts()
    ensures
        begin_marker().len() == 6,
        cancel_marker().len() == 16,
        end_tag().len() == 13,
        forall|j: int| 0 <= j < end_tag().len() ==> end_tag()[j] != '\n',
        forall|j: int| 0 <= j < end_tag().len() ==> end_tag()[j] != begin_marker()[0],
        forall|j: int| 2 <= j < begin_marker().len() ==> begin_marker()[j] != end_tag()[0],
        begin_marker()[2] != end_tag()[1],
        forall|j: int| 0 <= j < cancel_marker().len() ==> cancel_marker()[j] != '\n',
        forall|j: int| 0 <= j < cancel_marker().len() ==> cancel_marker()[j] != begin_marker()[0],
        forall|j: int| 1 <= j < begin_marker().len() ==> begin_marker()[j] != cancel_marker()[0],
{
    reveal_strlit("BEGIN:");
    reveal_strlit("STATUS:CANCELLED");
    reveal_strlit("END:VCALENDAR");
}

} // verus!
