//! Issues as the issue tracker reports them.

use vstd::prelude::*;

verus! {

/// A named, coloured tag on an issue. The colour is written as hexadecimal
/// digits.
#[derive(Debug, Clone, PartialEq, Eq)]
pub struct Label {
    pub name: String,
    pub color: String,
}

/// An issue as the tracker lists it.
#[derive(Debug, Clone, PartialEq, Eq)]
pub struct IssueDto {
    pub html_url: String,
    pub title: String,
    pub labels: Vec<Label>,
}

/// What the tracker pushes when something happens to an issue.
#[derive(Debug, Clone, PartialEq, Eq)]
pub struct WebhookPayloadDto {
    pub action: String,
    pub issue: IssueDto,
}

/// The names of a sequence of labels, in order.
pub open spec fn label_names(labels: Seq<Label>) -> Seq<Seq<char>> {
    Seq::new(labels.len(), |i: int| labels[i].name@)
}

} // verus!
