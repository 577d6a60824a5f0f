use supergit::config;
use supergit::init::{self, Branch, Commit, Setting};

#[test]
fn flat_config_defaults_to_off() {
    let config = config::Config::default();
    assert!(!config.conventional_commits);
    assert!(!config.ticket_prefix);
}

#[test]
fn flat_config_from_selection() {
    let chosen = vec!["ticket_prefix".to_string()];
    let config = config::Config::from_selection(&chosen);
    assert!(!config.conventional_commits);
    assert!(config.ticket_prefix);
    let both = vec!["conventional_commits".to_string(), "ticket_prefix".to_string()];
    let config = config::Config::from_selection(&both);
    assert!(config.conventional_commits && config.ticket_prefix);
    assert_eq!(config::Config::from_selection(&vec![]), config::Config::default());
}

#[test]
fn flat_config_settings_in_order() {
    assert_eq!(config::settings(), vec!["conventional_commits", "ticket_prefix"]);
}

#[test]
fn commit_defaults() {
    let commit = Commit::default();
    assert!(!commit.conventional_commits);
    assert!(!commit.ticket_suffix);
    assert_eq!(
        commit.types,
        vec!["build", "ci", "docs", "feat", "fix", "perf", "refactor", "style", "test", "revert"]
    );
}

#[test]
fn branch_defaults() {
    let branch = Branch::default();
    assert!(!branch.conventional_branches);
    assert_eq!(branch.types, vec!["feature", "bugfix", "hotfix", "release", "chore"]);
}

#[test]
fn config_defaults_to_both_sections() {
    let config = init::Config::default();
    assert_eq!(config.commit, Commit::default());
    assert_eq!(config.branch, Branch::default());
}

#[test]
fn settings_get_and_set() {
    let mut config = init::Config::default();
    let all = init::settings();
    assert_eq!(
        all,
        vec![Setting::ConventionalCommits, Setting::TicketSuffix, Setting::ConventionalBranches]
    );
    assert_eq!(all[0].label(), "Use conventional commits?");
    assert_eq!(all[1].label(), "Use ticket suffix?");
    assert_eq!(all[2].label(), "Use conventional branches?");
    for setting in &all {
        assert!(!setting.get(&config));
    }
    Setting::TicketSuffix.set(&mut config, true);
    assert!(config.commit.ticket_suffix);
    assert!(!config.commit.conventional_commits);
    assert!(!config.branch.conventional_branches);
    Setting::ConventionalBranches.set(&mut config, true);
    Setting::TicketSuffix.set(&mut config, false);
    assert!(config.branch.conventional_branches);
    assert!(!config.commit.ticket_suffix);
    assert_eq!(config.commit.types, Commit::default().types);
}
