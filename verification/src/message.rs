//! The message that is posted for an issue event.

use vstd::prelude::*;
use vstd::string::StringExecFns;
use crate::color::{issue_color, issue_color_spec};
use crate::config::Config;
use crate::discord_dtos::{
    build_ping_list_from_github_dto, ping_list_spec, WebhookEmbed, WebhookMsgDto,
};
use crate::github_dtos::{label_names, Label};
use crate::issue_event::{IssueEvent, IssueEventView};

verus! {

/// The names joined by a comma and a blank.
pub open spec fn label_list_spec(names: Seq<Seq<char>>) -> Seq<char>
    decreases names.len(),
{
    if names.len() == 0 {
        Seq::empty()
    } else if names.len() == 1 {
        names[0]
    } else {
        label_list_spec(names.drop_last()) + ", "@ + names.last()
    }
}

/// The text of a reminder that an issue is still open.
pub open spec fn reminder_description(
    title: Seq<char>,
    url: Seq<char>,
    label_list: Seq<char>,
) -> Seq<char> {
    "**Friendly reminder that the [issue \""@ + title + "\"]("@ + url
        + ") is currently open and assigned to you :slight_smile:.**\nLabels: "@ + label_list
}

/// The text of a notice that something happened to an issue.
pub open spec fn notice_description(
    title: Seq<char>,
    url: Seq<char>,
    action: Seq<char>,
    label_list: Seq<char>,
) -> Seq<char> {
    "**The [issue \""@ + title + "\"]("@ + url + ") has been "@ + action + ".**\nLabels: "@
        + label_list
}

/// The heading of the message for an event.
pub open spec fn message_title(action: Option<Seq<char>>) -> Seq<char> {
    match action {
        Some(action) => "Issue "@ + action + "!"@,
        None => "Issue Reminder"@,
    }
}

/// The text of the message for an event: a notice where something happened
/// to the issue, a reminder where nothing did.
pub open spec fn message_description(event: IssueEventView) -> Seq<char> {
    let label_list = label_list_spec(label_names(event.labels));
    match event.action {
        Some(action) => notice_description(event.title, event.url, action, label_list),
        None => reminder_description(event.title, event.url, label_list),
    }
}

/// The names of the labels, joined by a comma and a blank.
pub fn label_list(labels: &Vec<Label>) -> (list: String)
    ensures
        list@ == label_list_spec(label_names(labels@)),
{
    let ghost names = label_names(labels@);
    let mut list = String::new();
    let mut i: usize = 0;
    assert(names.take(0) =~= Seq::empty());
    while i < labels.len()
        invariant
            i <= labels.len(),
            names == label_names(labels@),
            list@ == label_list_spec(names.take(i as int)),
        decreases labels.len() - i,
    {
        if i > 0 {
            list.append(", ");
        }
        list.append(labels[i].name.as_str());
        proof {
            let next = names.take(i + 1);
            assert(next.drop_last() =~= names.take(i as int));
            assert(next.last() == names[i as int]);
            if i == 0 {
                assert(list@ =~= next[0]);
            }
        }
        i += 1;
    }
    assert(names.take(i as int) =~= names);
    list
}

/// The message for an event: it pings the recipients of the issue's labels,
/// is coloured as the issue's first label, and holds one embed, which says
/// what happened or, where nothing did, that the issue is still open.
pub fn build_message(config: &Config, event: &IssueEvent) -> (message: WebhookMsgDto)
    ensures
        message.content@ == ping_list_spec(config, label_names(event@.labels)),
        message.embeds@.len() == 1,
        message.embeds@[0].title@ == message_title(event@.action),
        message.embeds@[0].color == issue_color_spec(event@.labels),
        message.embeds@[0].description@ == message_description(event@),
{
    let labels = event.labels();
    let names = label_list(labels);
    let mut title = String::new();
    let mut description = String::new();
    match event.action() {
        Some(action) => {
            title.append("Issue ");
            title.append(action);
            title.append("!");
            description.append("**The [issue \"");
            description.append(event.title());
            description.append("\"](");
            description.append(event.url());
            description.append(") has been ");
            description.append(action);
            description.append(".**\nLabels: ");
            description.append(names.as_str());
        },
        None => {
            title.append("Issue Reminder");
            description.append("**Friendly reminder that the [issue \"");
            description.append(event.title());
            description.append("\"](");
            description.append(event.url());
            description.append(
                ") is currently open and assigned to you :slight_smile:.**\nLabels: ",
            );
            description.append(names.as_str());
        },
    }
    let embed = WebhookEmbed { title, color: issue_color(labels), description };
    WebhookMsgDto { content: build_ping_list_from_github_dto(config, labels), embeds: vec![embed] }
}

} // verus!
