use issue_relay::github_dtos::{IssueDto, Label, WebhookPayloadDto};
use issue_relay::issue_event::IssueEvent;

const TEST_WEBHOOK_PAYLOAD: &str = r#"{
  "action": "created",
  "issue": {
    "url": "https://api.github.com/repos/Codertocat/Hello-World/issues/1",
    "html_url": "https://github.com/Codertocat/Hello-World/issues/1",
    "id": 444500041,
    "number": 1,
    "title": "Spelling error in the README file",
    "user": { "login": "Codertocat", "id": 21031067 },
    "labels": [
      {
        "id": 1362934389,
        "url": "https://api.github.com/repos/Codertocat/Hello-World/labels/bug",
        "name": "bug",
        "color": "d73a4a",
        "default": true
      }
    ],
    "state": "open",
    "locked": false,
    "comments": 0,
    "body": "It looks like you accidently spelled 'commit' with two 't's."
  },
  "repository": { "id": 186853002, "name": "Hello-World" },
  "sender": { "login": "Codertocat", "id": 21031067 }
}"#;

fn text_of(value: &serde_json::Value, key: &str) -> String {
    value.get(key).and_then(|v| v.as_str()).unwrap().to_string()
}

fn decode(text: &str) -> WebhookPayloadDto {
    let document: serde_json::Value = serde_json::from_str(text).unwrap();
    let issue = document.get("issue").unwrap();
    let labels = issue
        .get("labels")
        .and_then(|v| v.as_array())
        .unwrap()
        .iter()
        .map(|label| Label { name: text_of(label, "name"), color: text_of(label, "color") })
        .collect();
    WebhookPayloadDto {
        action: text_of(&document, "action"),
        issue: IssueDto {
            html_url: text_of(issue, "html_url"),
            title: text_of(issue, "title"),
            labels,
        },
    }
}

#[test]
fn test_dto_decode() {
    let dto = decode(TEST_WEBHOOK_PAYLOAD);
    let expected = WebhookPayloadDto {
        action: "created".into(),
        issue: IssueDto {
            html_url: "https://github.com/Codertocat/Hello-World/issues/1".into(),
            title: "Spelling error in the README file".into(),
            labels: vec![Label {
                name: "bug".into(),
                color: "d73a4a".into(),
            }],
        },
    };
    assert_eq!(expected, dto);
}

#[test]
fn decoded_payload_becomes_an_event() {
    let event = IssueEvent::from_pushed(decode(TEST_WEBHOOK_PAYLOAD));
    assert_eq!(event.action(), Some("created"));
    assert_eq!(event.title(), "Spelling error in the README file");
    assert_eq!(event.url(), "https://github.com/Codertocat/Hello-World/issues/1");
    assert_eq!(event.labels().len(), 1);
    assert_eq!(event.labels()[0].name, "bug");
    assert_eq!(event.labels()[0].color, "d73a4a");
}
