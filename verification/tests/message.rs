use issue_relay::config::Config;
use issue_relay::discord_dtos::{WebhookEmbed, WebhookMsgDto};
use issue_relay::github_dtos::{IssueDto, Label, WebhookPayloadDto};
use issue_relay::issue_event::IssueEvent;
use issue_relay::label_map::LabelMap;
use issue_relay::message::{build_message, label_list};

fn label(name: &str, color: &str) -> Label {
    Label { name: name.to_string(), color: color.to_string() }
}

fn bug_config() -> Config {
    let mut labels = LabelMap::new();
    labels.insert("bug".to_string(), vec!["@1".to_string()]);
    Config {
        bind_address: "127.0.0.1:8080".to_string(),
        webhook_url: "https://example.invalid/hook".to_string(),
        github_repo_identifier: "owner/repo".to_string(),
        unlabeled: vec!["@0".to_string()],
        labels,
    }
}

#[test]
fn pushed_event_becomes_a_notice() {
    let payload = WebhookPayloadDto {
        action: "opened".to_string(),
        issue: IssueDto {
            html_url: "https://x/1".to_string(),
            title: "Spelling error".to_string(),
            labels: vec![label("bug", "d73a4a")],
        },
    };
    let message = build_message(&bug_config(), &IssueEvent::from_pushed(payload));
    assert_eq!(message.content, "<@1>");
    assert_eq!(message.embeds.len(), 1);
    assert_eq!(message.embeds[0].title, "Issue opened!");
    assert_eq!(message.embeds[0].color, 14105162);
    assert!(message.embeds[0].description.contains("opened"));
    assert!(message.embeds[0].description.contains("https://x/1"));
    assert_eq!(
        message,
        WebhookMsgDto {
            content: "<@1>".to_string(),
            embeds: vec![WebhookEmbed {
                title: "Issue opened!".to_string(),
                color: 0xd73a4a,
                description:
                    "**The [issue \"Spelling error\"](https://x/1) has been opened.**\nLabels: bug"
                        .to_string(),
            }],
        }
    );
}

#[test]
fn polled_issue_becomes_a_reminder() {
    let issue = IssueDto {
        html_url: "https://x/2".to_string(),
        title: "Crash on start".to_string(),
        labels: vec![label("crash", "0000ff"), label("bug", "d73a4a"), label("help wanted", "")],
    };
    let message = build_message(&bug_config(), &IssueEvent::from_polled(issue));
    assert_eq!(
        message,
        WebhookMsgDto {
            content: "<@1>".to_string(),
            embeds: vec![WebhookEmbed {
                title: "Issue Reminder".to_string(),
                color: 255,
                description: "**Friendly reminder that the [issue \"Crash on start\"](https://x/2) is currently open and assigned to you :slight_smile:.**\nLabels: crash, bug, help wanted".to_string(),
            }],
        }
    );
}

#[test]
fn issue_without_labels_is_colorless_and_pings_the_unlabeled() {
    let issue = IssueDto {
        html_url: "https://x/3".to_string(),
        title: "".to_string(),
        labels: vec![],
    };
    let message = build_message(&bug_config(), &IssueEvent::from_polled(issue.clone()));
    assert_eq!(message.content, "<@0>");
    assert_eq!(message.embeds[0].color, 0);
    assert_eq!(
        message.embeds[0].description,
        "**Friendly reminder that the [issue \"\"](https://x/3) is currently open and assigned to you :slight_smile:.**\nLabels: "
    );
    let payload = WebhookPayloadDto { action: "closed".to_string(), issue };
    let notice = build_message(&bug_config(), &IssueEvent::from_pushed(payload));
    assert_eq!(notice.content, "<@0>");
    assert_eq!(notice.embeds[0].title, "Issue closed!");
    assert_eq!(notice.embeds[0].color, 0);
    assert_eq!(
        notice.embeds[0].description,
        "**The [issue \"\"](https://x/3) has been closed.**\nLabels: "
    );
}

#[test]
fn unreadable_first_color_gives_zero() {
    let payload = WebhookPayloadDto {
        action: "labeled".to_string(),
        issue: IssueDto {
            html_url: "u".to_string(),
            title: "t".to_string(),
            labels: vec![label("x", "not a color"), label("bug", "d73a4a")],
        },
    };
    let message = build_message(&bug_config(), &IssueEvent::from_pushed(payload));
    assert_eq!(message.embeds[0].color, 0);
    assert_eq!(message.embeds[0].title, "Issue labeled!");
    assert_eq!(message.content, "<@1>");
}

#[test]
fn label_names_are_joined_by_comma_and_blank() {
    assert_eq!(label_list(&vec![]), "");
    assert_eq!(label_list(&vec![label("bug", "")]), "bug");
    assert_eq!(label_list(&vec![label("bug", ""), label("ui", "")]), "bug, ui");
    assert_eq!(
        label_list(&vec![label("a", ""), label("", ""), label("c, d", "")]),
        "a, , c, d"
    );
}

#[test]
fn event_keeps_what_the_issue_holds() {
    let issue = IssueDto {
        html_url: "https://x/4".to_string(),
        title: "Title".to_string(),
        labels: vec![label("bug", "d73a4a"), label("ui", "00ff00")],
    };
    let polled = IssueEvent::from_polled(issue.clone());
    assert_eq!(polled.title(), "Title");
    assert_eq!(polled.url(), "https://x/4");
    assert_eq!(polled.labels(), &issue.labels);
    assert_eq!(polled.action(), None);
    let pushed = IssueEvent::from_pushed(WebhookPayloadDto {
        action: "reopened".to_string(),
        issue: issue.clone(),
    });
    assert_eq!(pushed.title(), "Title");
    assert_eq!(pushed.url(), "https://x/4");
    assert_eq!(pushed.labels(), &issue.labels);
    assert_eq!(pushed.action(), Some("reopened"));
    assert_ne!(polled, pushed);
}
