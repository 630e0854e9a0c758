//! What is posted to the chat webhook, and whom it pings.

use vstd::prelude::*;
use crate::config::Config;
use crate::github_dtos::{label_names, Label};
use crate::recipient_set::{
    lemma_listing_holds_each_once, listing, lists, ping_text, strictly_increasing, RecipientSet,
};
use crate::text::texts;

verus! {

/// The message as the chat webhook takes it.
#[derive(Debug, Clone, PartialEq, Eq)]
pub struct WebhookMsgDto {
    pub content: String,
    pub embeds: Vec<WebhookEmbed>,
}

/// One framed block of a message.
#[derive(Debug, Clone, PartialEq, Eq)]
pub struct WebhookEmbed {
    pub title: String,
    pub color: i64,
    pub description: String,
}

/// The label at `i` of `names` is one that `routes` has recipients for.
pub open spec fn label_matches(
    routes: Map<Seq<char>, Seq<Seq<char>>>,
    names: Seq<Seq<char>>,
    i: int,
) -> bool {
    0 <= i < names.len() && routes.contains_key(names[i])
}

/// The recipients of all the labels among `names` that `routes` knows.
pub open spec fn matched_recipients(
    routes: Map<Seq<char>, Seq<Seq<char>>>,
    names: Seq<Seq<char>>,
) -> Set<Seq<char>> {
    Set::new(
        |r: Seq<char>|
            exists|i: int| #[trigger] label_matches(routes, names, i) && routes[names[i]].contains(r),
    )
}

/// Nobody is notified for the labels themselves, so that the recipients for
/// unlabeled issues are.
pub open spec fn falls_back(config: &Config, names: Seq<Seq<char>>) -> bool {
    matched_recipients(config.labels@, names) == Set::<Seq<char>>::empty()
}

/// Who is notified of an issue with the labels `names`: the recipients of
/// its labels or, where there are none, the recipients for unlabeled issues.
pub open spec fn recipients_for(config: &Config, names: Seq<Seq<char>>) -> Set<Seq<char>> {
    if falls_back(config, names) {
        config.unlabeled_recipients()
    } else {
        matched_recipients(config.labels@, names)
    }
}

/// The ping list of an issue with the labels `names`: the mention of each of
/// its recipients, once, in increasing order.
pub open spec fn ping_list_spec(config: &Config, names: Seq<Seq<char>>) -> Seq<char> {
    ping_text(listing(recipients_for(config, names)))
}

proof fn lemma_matched_step(
    routes: Map<Seq<char>, Seq<Seq<char>>>,
    names: Seq<Seq<char>>,
    n: int,
)
    requires
        0 <= n < names.len(),
    ensures
        matched_recipients(routes, names.take(n + 1)) == if routes.contains_key(names[n]) {
            matched_recipients(routes, names.take(n)).union(routes[names[n]].to_set())
        } else {
            matched_recipients(routes, names.take(n))
        },
{
    let shorter = names.take(n);
    let longer = names.take(n + 1);
    let step = if routes.contains_key(names[n]) {
        matched_recipients(routes, shorter).union(routes[names[n]].to_set())
    } else {
        matched_recipients(routes, shorter)
    };
    assert forall|r: Seq<char>| matched_recipients(routes, longer).contains(r) <==> step.contains(
        r,
    ) by {
        if matched_recipients(routes, longer).contains(r) {
            let i = choose|i: int| #[trigger]
                label_matches(routes, longer, i) && routes[longer[i]].contains(r);
            if i < n {
                assert(label_matches(routes, shorter, i) && routes[shorter[i]].contains(r));
            }
        }
        if matched_recipients(routes, shorter).contains(r) {
            let i = choose|i: int| #[trigger]
                label_matches(routes, shorter, i) && routes[shorter[i]].contains(r);
            assert(label_matches(routes, longer, i) && routes[longer[i]].contains(r));
        }
        if routes.contains_key(names[n]) && routes[names[n]].contains(r) {
            assert(label_matches(routes, longer, n) && routes[longer[n]].contains(r));
        }
    }
    assert(matched_recipients(routes, longer) =~= step);
}

proof fn lemma_take_push_to_set(list: Seq<Seq<char>>, n: int)
    requires
        0 <= n < list.len(),
    ensures
        list.take(n + 1).to_set() == list.take(n).to_set().insert(list[n]),
{
    let shorter = list.take(n);
    let longer = list.take(n + 1);
    assert forall|x: Seq<char>| longer.to_set().contains(x) <==> shorter.to_set().insert(
        list[n],
    ).contains(x) by {
        if longer.contains(x) {
            let i = choose|i: int| 0 <= i < longer.len() && longer[i] == x;
            if i < n {
                assert(shorter[i] == x);
            }
        }
        if shorter.contains(x) {
            let i = choose|i: int| 0 <= i < shorter.len() && shorter[i] == x;
            assert(longer[i] == x);
        }
        if x == list[n] {
            assert(longer[n] == x);
        }
    }
    assert(longer.to_set() =~= shorter.to_set().insert(list[n]));
}

/// Only finitely many recipients are notified of an issue.
pub proof fn lemma_recipients_finite(config: &Config, names: Seq<Seq<char>>)
    ensures
        matched_recipients(config.labels@, names).finite(),
        recipients_for(config, names).finite(),
    decreases names.len(),
{
    let routes = config.labels@;
    if names.len() == 0 {
        assert(matched_recipients(routes, names) =~= Set::<Seq<char>>::empty()) by {
            assert forall|r: Seq<char>| !matched_recipients(routes, names).contains(r) by {
                assert(forall|i: int| !label_matches(routes, names, i));
            }
        }
    } else {
        let n = names.len() - 1;
        lemma_recipients_finite(config, names.take(n));
        lemma_matched_step(routes, names, n);
        assert(names.take(n + 1) =~= names);
        if routes.contains_key(names[n]) {
            vstd::seq_lib::seq_to_set_is_finite(routes[names[n]]);
        }
    }
    vstd::seq_lib::seq_to_set_is_finite(texts(config.unlabeled@));
}

/// The ping list holds one mention for each recipient of the issue, and no
/// other: the recipients stand in it in increasing order, none of them
/// twice, and they are as many as the set of recipients has members.
pub proof fn lemma_ping_list_mentions_each_recipient_once(config: &Config, names: Seq<Seq<char>>)
    ensures
        ping_list_spec(config, names) == ping_text(listing(recipients_for(config, names))),
        listing(recipients_for(config, names)).no_duplicates(),
        listing(recipients_for(config, names)).to_set() == recipients_for(config, names),
        listing(recipients_for(config, names)).len() == recipients_for(config, names).len(),
        strictly_increasing(listing(recipients_for(config, names))),
{
    lemma_recipients_finite(config, names);
    lemma_listing_holds_each_once(recipients_for(config, names));
}

/// Every recipient of an issue comes from a label of the issue that the
/// configuration knows or, where the labels give nobody, from the
/// recipients for unlabeled issues.
pub proof fn lemma_recipient_origin(config: &Config, names: Seq<Seq<char>>, recipient: Seq<char>)
    requires
        recipients_for(config, names).contains(recipient),
    ensures
        falls_back(config, names) ==> texts(config.unlabeled@).contains(recipient),
        !falls_back(config, names) ==> exists|i: int| #[trigger]
            label_matches(config.labels@, names, i) && config.labels@[names[i]].contains(
                recipient,
            ),
{
}

/// The recipients for unlabeled issues are notified exactly when no label
/// of the issue is one that the configuration knows. This is stated of the
/// issues of which, where a label is known, some known label has a
/// recipient.
pub proof fn lemma_fallback_iff_no_label_matches(config: &Config, names: Seq<Seq<char>>)
    requires
        (exists|i: int| label_matches(config.labels@, names, i)) ==> exists|i: int| #[trigger]
            label_matches(config.labels@, names, i) && config.labels@[names[i]].len() > 0,
    ensures
        falls_back(config, names) <==> forall|i: int| !label_matches(config.labels@, names, i),
        (forall|i: int| !label_matches(config.labels@, names, i)) ==> recipients_for(config, names)
            == config.unlabeled_recipients(),
{
    let routes = config.labels@;
    let matched = matched_recipients(routes, names);
    if exists|i: int| label_matches(routes, names, i) {
        let i = choose|i: int| #[trigger]
            label_matches(routes, names, i) && routes[names[i]].len() > 0;
        let r = routes[names[i]][0];
        assert(routes[names[i]].contains(r));
        assert(matched.contains(r));
    } else {
        assert(matched =~= Set::<Seq<char>>::empty());
    }
}

/// An issue without labels pings the recipients for unlabeled issues.
pub proof fn lemma_no_labels_pings_unlabeled(config: &Config)
    ensures
        recipients_for(config, Seq::<Seq<char>>::empty()) == config.unlabeled_recipients(),
        ping_list_spec(config, Seq::<Seq<char>>::empty()) == ping_text(
            listing(config.unlabeled_recipients()),
        ),
{
    let names = Seq::<Seq<char>>::empty();
    assert(matched_recipients(config.labels@, names) =~= Set::<Seq<char>>::empty()) by {
        assert forall|r: Seq<char>| !matched_recipients(config.labels@, names).contains(r) by {
            assert(forall|i: int| !label_matches(config.labels@, names, i));
        }
    }
}

/// Adds every recipient of a list to the set.
fn insert_all(people: &mut RecipientSet, list: &Vec<String>)
    ensures
        final(people)@ == old(people)@.union(texts(list@).to_set()),
{
    let ghost all = texts(list@);
    let mut j: usize = 0;
    assert(all.take(0).to_set() =~= Set::<Seq<char>>::empty());
    assert(people@ =~= people@.union(all.take(0).to_set()));
    while j < list.len()
        invariant
            j <= list.len(),
            all == texts(list@),
            people@ == old(people)@.union(all.take(j as int).to_set()),
        decreases list.len() - j,
    {
        proof {
            lemma_take_push_to_set(all, j as int);
        }
        people.insert(list[j].as_str());
        assert(people@ =~= old(people)@.union(all.take(j + 1).to_set()));
        j += 1;
    }
    assert(all.take(j as int) =~= all);
}

/// The ping list for an issue with these labels: one mention for each
/// recipient of a label that the configuration knows or, where the labels
/// give nobody, for each recipient for unlabeled issues. Nobody is mentioned
/// twice, and the mentions stand in increasing order, with nothing between
/// them.
pub fn build_ping_list_from_github_dto(config: &Config, labels: &Vec<Label>) -> (ping_list: String)
    ensures
        ping_list@ == ping_list_spec(config, label_names(labels@)),
        recipients_for(config, label_names(labels@)).finite(),
        lists(
            listing(recipients_for(config, label_names(labels@))),
            recipients_for(config, label_names(labels@)),
        ),
{
    let ghost names = label_names(labels@);
    let ghost routes = config.labels@;
    let mut people = RecipientSet::new();
    let mut i: usize = 0;
    assert(matched_recipients(routes, names.take(0)) =~= Set::<Seq<char>>::empty());
    while i < labels.len()
        invariant
            i <= labels.len(),
            names == label_names(labels@),
            routes == config.labels@,
            people@ == matched_recipients(routes, names.take(i as int)),
        decreases labels.len() - i,
    {
        proof {
            lemma_matched_step(routes, names, i as int);
        }
        match config.labels.get(labels[i].name.as_str()) {
            Some(pingees) => {
                insert_all(&mut people, pingees);
            },
            None => {},
        }
        i += 1;
    }
    assert(names.take(i as int) =~= names);
    if people.is_empty() {
        insert_all(&mut people, &config.unlabeled);
        assert(people@ =~= config.unlabeled_recipients());
    }
    people.render()
}

} // verus!
