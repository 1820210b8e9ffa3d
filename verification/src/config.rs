//! The profile's settings: the account, the repositories featured on the card
//! and the chips of its technology row.

use vstd::prelude::*;

verus! {

/// A repository featured on the card, with the label shown above its card slot.
pub struct PinnedRepo {
    /// The repository's name under the account (its slug).
    pub name: &'static str,
    /// A display label; it does not come from the GitHub API.
    pub topic: &'static str,
}

/// The account and the fixed content of the card.
pub struct Config {
    pub username: &'static str,
    /// The card has six slots for featured repositories.
    pub pinned: Vec<PinnedRepo>,
    /// The chips of the "Core Stack" row.
    pub stack: Vec<&'static str>,
}

/// The names of the featured repositories.
pub open spec fn configured_pinned_names() -> Seq<Seq<char>> {
    seq![
        "nixos-development-templates"@,
        "TODO-repo-2"@,
        "TODO-repo-3"@,
        "TODO-repo-4"@,
        "TODO-repo-5"@,
        "TODO-repo-6"@,
    ]
}

/// The labels of the featured repositories.
pub open spec fn configured_pinned_topics() -> Seq<Seq<char>> {
    seq![
        "TODO: topic 1"@,
        "TODO: topic 2"@,
        "TODO: topic 3"@,
        "TODO: topic 4"@,
        "TODO: topic 5"@,
        "TODO: topic 6"@,
    ]
}

/// The chips of the stack row.
pub open spec fn configured_stack() -> Seq<Seq<char>> {
    seq!["NixOS"@, "Rust"@, "Nix"@]
}

impl Config {
    /// The names of the featured repositories, in order.
    pub open spec fn pinned_names(&self) -> Seq<Seq<char>> {
        self.pinned@.map_values(|p: PinnedRepo| p.name@)
    }

    /// The labels of the featured repositories, in order.
    pub open spec fn pinned_topics(&self) -> Seq<Seq<char>> {
        self.pinned@.map_values(|p: PinnedRepo| p.topic@)
    }

    /// The chips of the stack row, in order.
    pub open spec fn stack_names(&self) -> Seq<Seq<char>> {
        self.stack@.map_values(|s: &'static str| s@)
    }
}

/// The settings of this profile. Edit the values here to feature your own public
/// repositories; a name that does not exist under the account is left out of the
/// card, not reported.
pub fn profile_config() -> (config: Config)
    ensures
        config.username@ == "msalmanrafadhlih"@,
        config.pinned_names() == configured_pinned_names(),
        config.pinned_topics() == configured_pinned_topics(),
        config.stack_names() == configured_stack(),
{
    let mut pinned: Vec<PinnedRepo> = Vec::new();
    pinned.push(PinnedRepo { name: "nixos-development-templates", topic: "TODO: topic 1" });
    pinned.push(PinnedRepo { name: "TODO-repo-2", topic: "TODO: topic 2" });
    pinned.push(PinnedRepo { name: "TODO-repo-3", topic: "TODO: topic 3" });
    pinned.push(PinnedRepo { name: "TODO-repo-4", topic: "TODO: topic 4" });
    pinned.push(PinnedRepo { name: "TODO-repo-5", topic: "TODO: topic 5" });
    pinned.push(PinnedRepo { name: "TODO-repo-6", topic: "TODO: topic 6" });
    let mut stack: Vec<&'static str> = Vec::new();
    stack.push("NixOS");
    stack.push("Rust");
    stack.push("Nix");
    let config = Config { username: "msalmanrafadhlih", pinned, stack };
    assert(config.pinned_names() =~= configured_pinned_names());
    assert(config.pinned_topics() =~= configured_pinned_topics());
    assert(config.stack_names() =~= configured_stack());
    config
}

} // verus!
