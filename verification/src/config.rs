//! What the relay is told once, when it starts: where it listens, where it
//! delivers, which repository it watches and whom it notifies.

use vstd::prelude::*;
use crate::label_map::LabelMap;
use crate::text::texts;

verus! {

/// The relay's configuration.
#[derive(Debug, Clone, PartialEq, Eq)]
pub struct Config {
    pub bind_address: String,
    pub webhook_url: String,
    pub github_repo_identifier: String,
    /// Who is notified of an issue for whose labels nobody is.
    pub unlabeled: Vec<String>,
    /// Who is notified of an issue with a given label.
    pub labels: LabelMap,
}

impl Config {
    /// The recipients for issues whose labels give none, as a set.
    pub open spec fn unlabeled_recipients(&self) -> Set<Seq<char>> {
        texts(self.unlabeled@).to_set()
    }
}

impl Default for Config {
    /// The configuration that is written out where none exists yet.
    fn default() -> (config: Self)
        ensures
            config.bind_address@ == "127.0.0.1:8080"@,
            config.webhook_url@ == "https://discord.com/api/webhooks/blah/blah?wait=true"@,
            config.github_repo_identifier@ == "ModdedMinecraftClub/Mmcc.Bot"@,
            texts(config.unlabeled@) == seq!["@184791836735438858"@],
            config.labels@ == Map::<Seq<char>, Seq<Seq<char>>>::empty().insert(
                "Needs-Owner-Attention"@,
                seq!["@184791836735438858"@, "@111913367202996224"@],
            ).insert("Example-Server"@, seq!["@184791836735438858"@]),
    {
        let mut unlabeled: Vec<String> = Vec::new();
        unlabeled.push("@184791836735438858".to_owned());
        assert(texts(unlabeled@) =~= seq!["@184791836735438858"@]);

        let mut owners: Vec<String> = Vec::new();
        owners.push("@184791836735438858".to_owned());
        owners.push("@111913367202996224".to_owned());
        assert(texts(owners@) =~= seq!["@184791836735438858"@, "@111913367202996224"@]);

        let mut example: Vec<String> = Vec::new();
        example.push("@184791836735438858".to_owned());
        assert(texts(example@) =~= seq!["@184791836735438858"@]);

        let mut labels = LabelMap::new();
        labels.insert("Needs-Owner-Attention".to_owned(), owners);
        labels.insert("Example-Server".to_owned(), example);

        Config {
            bind_address: "127.0.0.1:8080".to_owned(),
            webhook_url: "https://discord.com/api/webhooks/blah/blah?wait=true".to_owned(),
            github_repo_identifier: "ModdedMinecraftClub/Mmcc.Bot".to_owned(),
            unlabeled,
            labels,
        }
    }
}

} // verus!
