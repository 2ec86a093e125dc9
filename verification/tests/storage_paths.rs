use m65_field_jacket::error::MfjError;
use m65_field_jacket::storage::{
    config, identities_dir, identity_private, identity_public, keyring, m65_home, pocket_dir, pockets_dir,
    repo_root_step, secret, session, RepoRootStep,
};

#[test]
fn global_paths() {
    assert_eq!(m65_home("/home/u"), "/home/u/.m65");
    assert_eq!(config("/home/u"), "/home/u/.m65/config");
    assert_eq!(session("/home/u"), "/home/u/.m65/session");
    assert_eq!(identities_dir("/home/u"), "/home/u/.m65/identities");
    assert_eq!(identity_private("/home/u", "me"), "/home/u/.m65/identities/me");
    assert_eq!(identity_public("/home/u", "me"), "/home/u/.m65/identities/me.pub");
}

#[test]
fn pocket_paths() {
    assert_eq!(pockets_dir("/repo"), "/repo/.m65");
    assert_eq!(pocket_dir("/repo", "shared"), "/repo/.m65/shared");
    assert_eq!(keyring("/repo/.m65/shared"), "/repo/.m65/shared/keyring");
    assert_eq!(secret("/repo/.m65/shared", "API_KEY"), "/repo/.m65/shared/API_KEY.enc");
    assert_eq!(pocket_dir("/repo/", "p"), "/repo/.m65/p");
}

fn describe(s: RepoRootStep) -> String {
    match s {
        RepoRootStep::Found(p) => format!("found {p}"),
        RepoRootStep::Ascend(p) => format!("ascend {p}"),
        RepoRootStep::Fail(MfjError::NoRepoBelowHome) => "home".to_owned(),
        RepoRootStep::Fail(MfjError::NoRepoInGitRepo) => "git".to_owned(),
        RepoRootStep::Fail(MfjError::NoRepoAtRoot) => "root".to_owned(),
        RepoRootStep::Fail(e) => format!("{e:?}"),
    }
}

#[test]
fn repo_root_search_steps() {
    assert_eq!(describe(repo_root_step("/home/u", "/home/u", true, true)), "home");
    assert_eq!(describe(repo_root_step("/home/u/", "/home/u", false, false)), "home");
    assert_eq!(describe(repo_root_step("/home/u/proj", "/home/u", true, true)), "found /home/u/proj");
    assert_eq!(describe(repo_root_step("/home/u/proj", "/home/u", false, true)), "git");
    assert_eq!(describe(repo_root_step("/home/u/proj/src", "/home/u", false, false)), "ascend /home/u/proj");
    assert_eq!(describe(repo_root_step("/", "/home/u", false, false)), "root");
}
