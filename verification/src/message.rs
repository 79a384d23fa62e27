//! Messages as they are shown, part by part.

use crate::ids::{LogicalResourceId, SequenceHash};
use vstd::prelude::*;

verus! {

/// One part of a message. Whoever shows the message writes numbers in decimal, and resources and
/// hashes in their debug form.
#[derive(Clone, Copy, Debug, PartialEq, Eq)]
pub enum MessagePart {
    Text(&'static str),
    Number(usize),
    Resource(LogicalResourceId),
    Hash(SequenceHash),
    /// What the failing service said.
    Cause,
}

/// The mathematical content of a [`MessagePart`].
pub enum PartView {
    Text(Seq<char>),
    Number(int),
    Resource(LogicalResourceId),
    Hash(SequenceHash),
    Cause,
}

impl View for MessagePart {
    type V = PartView;

    open spec fn view(&self) -> PartView {
        match self {
            MessagePart::Text(text) => PartView::Text(text@),
            MessagePart::Number(number) => PartView::Number(*number as int),
            MessagePart::Resource(resource) => PartView::Resource(*resource),
            MessagePart::Hash(hash) => PartView::Hash(*hash),
            MessagePart::Cause => PartView::Cause,
        }
    }
}

/// The content of a message.
pub open spec fn part_views(parts: Seq<MessagePart>) -> Seq<PartView> {
    Seq::new(parts.len(), |i: int| parts[i]@)
}

} // verus!
