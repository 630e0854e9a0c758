//! One form for an issue, whether it was listed on request or pushed.

use vstd::prelude::*;
use crate::github_dtos::{IssueDto, Label, WebhookPayloadDto};

verus! {

/// What an issue event holds.
pub struct IssueEventView {
    pub title: Seq<char>,
    pub url: Seq<char>,
    pub labels: Seq<Label>,
    /// What happened to the issue, where the event was pushed; `None` where
    /// the issue was listed on request.
    pub action: Option<Seq<char>>,
}

/// An issue together with what happened to it, if anything did. It does not
/// change once it is made.
#[derive(Debug, Clone, PartialEq, Eq)]
pub struct IssueEvent {
    title: String,
    url: String,
    labels: Vec<Label>,
    action: Option<String>,
}

impl IssueEvent {
    pub closed spec fn view(&self) -> IssueEventView {
        IssueEventView {
            title: self.title@,
            url: self.url@,
            labels: self.labels@,
            action: match self.action {
                Some(action) => Some(action@),
                None => None,
            },
        }
    }

    /// The event for an issue that was listed on request: nothing happened
    /// to it.
    pub fn from_polled(issue: IssueDto) -> (event: Self)
        ensures
            event@ == (IssueEventView {
                title: issue.title@,
                url: issue.html_url@,
                labels: issue.labels@,
                action: None,
            }),
    {
        IssueEvent { title: issue.title, url: issue.html_url, labels: issue.labels, action: None }
    }

    /// The event for a pushed payload: the payload's issue, and its action.
    pub fn from_pushed(payload: WebhookPayloadDto) -> (event: Self)
        ensures
            event@ == (IssueEventView {
                title: payload.issue.title@,
                url: payload.issue.html_url@,
                labels: payload.issue.labels@,
                action: Some(payload.action@),
            }),
    {
        IssueEvent {
            title: payload.issue.title,
            url: payload.issue.html_url,
            labels: payload.issue.labels,
            action: Some(payload.action),
        }
    }

    pub fn title(&self) -> (title: &str)
        ensures
            title@ == self@.title,
    {
        self.title.as_str()
    }

    pub fn url(&self) -> (url: &str)
        ensures
            url@ == self@.url,
    {
        self.url.as_str()
    }

    pub fn labels(&self) -> (labels: &Vec<Label>)
        ensures
            labels@ == self@.labels,
    {
        &self.labels
    }

    pub fn action(&self) -> (action: Option<&str>)
        ensures
            match action {
                Some(text) => self@.action == Some(text@),
                None => self@.action is None,
            },
    {
        match &self.action {
            Some(action) => Some(action.as_str()),
            None => None,
        }
    }
}

} // verus!
