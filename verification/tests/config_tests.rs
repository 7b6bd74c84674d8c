use git_switcher::config::expand_path_with_home;
use git_switcher::{AutoDetector, Config, Profile, Error};

fn profile(name: &str, email: &str) -> Profile {
    Profile {
        name: name.to_string(),
        email: email.to_string(),
        signingkey: None,
        ssh_key: None,
        github_username: None,
        encrypted_pat: None,
    }
}

#[test]
fn get_profile_after_add_profile() {
    let mut config = Config::default();
    config.add_profile("work".to_string(), profile("Hong", "hong@company.com"));
    let p = config.get_profile("work").unwrap();
    assert_eq!(p.email, "hong@company.com");
    match config.get_profile("personal") {
        Err(Error::ProfileNotFound(n)) => assert_eq!(n, "personal"),
        _ => panic!("expected ProfileNotFound"),
    }
}

#[test]
fn add_profile_replaces_profile_of_same_name() {
    let mut config = Config::default();
    config.add_profile("work".to_string(), profile("Hong", "old@company.com"));
    config.add_profile("home".to_string(), profile("Hong", "hong@gmail.com"));
    config.add_profile("work".to_string(), profile("Hong", "new@company.com"));
    assert_eq!(config.profiles.len(), 2);
    assert_eq!(config.get_profile("work").unwrap().email, "new@company.com");
    assert_eq!(config.get_profile("home").unwrap().email, "hong@gmail.com");
    assert_eq!(config.profiles.entries()[0].0, "work");
}

#[test]
fn remove_profile_then_get_fails() {
    let mut config = Config::default();
    config.add_profile("work".to_string(), profile("Hong", "hong@company.com"));
    assert!(config.remove_profile("work").is_ok());
    assert!(config.get_profile("work").is_err());
    match config.remove_profile("work") {
        Err(Error::ProfileNotFound(n)) => assert_eq!(n, "work"),
        _ => panic!("expected ProfileNotFound"),
    }
    assert!(config.profiles.is_empty());
}

#[test]
fn path_mapping_add_and_remove() {
    let mut config = Config::default();
    config.add_path_mapping("~/work".to_string(), "work".to_string());
    assert!(config.remove_path_mapping("~/work"));
    assert!(!config.remove_path_mapping("~/work"));
    assert!(config.path_mappings.is_empty());
}

#[test]
fn init_default_holds_two_profiles_and_mappings() {
    let config = Config::init_default();
    let ps = config.profiles.entries();
    assert_eq!(ps.len(), 2);
    assert_eq!(ps[0].0, "personal");
    assert_eq!(ps[0].1.name, "Your Name");
    assert_eq!(ps[0].1.email, "your.email@personal.com");
    assert_eq!(ps[0].1.github_username.as_deref(), Some("your-github-username"));
    assert!(ps[0].1.encrypted_pat.is_none());
    assert_eq!(ps[1].0, "company");
    assert_eq!(ps[1].1.email, "your.email@company.com");
    assert_eq!(ps[1].1.github_username.as_deref(), Some("your-work-username"));
    let ms = config.path_mappings.entries();
    assert_eq!(ms.len(), 2);
    assert_eq!(ms[0].0, "~/workspace/personal/");
    assert_eq!(ms[0].1, "personal");
    assert_eq!(ms[1].0, "~/workspace/company/");
    assert_eq!(ms[1].1, "company");
}

#[test]
fn expand_path_replaces_tilde_only_for_home_relative_paths() {
    assert_eq!(expand_path_with_home("~/work", Some("/home/hong")), "/home/hong/work");
    assert_eq!(expand_path_with_home("~/a~b", Some("/h")), "/h/a/hb");
    assert_eq!(expand_path_with_home("~/work", None), "~/work");
    assert_eq!(expand_path_with_home("/srv/~x", Some("/h")), "/srv/~x");
    assert_eq!(expand_path_with_home("~work", Some("/h")), "~work");
}

#[test]
fn find_profile_prefers_longest_mapping() {
    let mut config = Config::default();
    config.add_path_mapping("~/work".to_string(), "work".to_string());
    config.add_path_mapping("~/work/oss".to_string(), "oss".to_string());
    config.add_path_mapping("/srv".to_string(), "server".to_string());
    let home = Some("/home/hong");
    assert_eq!(
        config.find_profile_for_path_with_home("/home/hong/work/oss/repo", home).map(|s| s.as_str()),
        Some("oss")
    );
    assert_eq!(
        config.find_profile_for_path_with_home("/home/hong/work/repo", home).map(|s| s.as_str()),
        Some("work")
    );
    assert_eq!(
        config.find_profile_for_path_with_home("/srv/app", home).map(|s| s.as_str()),
        Some("server")
    );
    assert_eq!(config.find_profile_for_path_with_home("/tmp/x", home), None);
}

#[test]
fn find_profile_ties_go_to_earlier_mapping() {
    let mut config = Config::default();
    config.add_path_mapping("/home/hong/w".to_string(), "first".to_string());
    config.add_path_mapping("~/w".to_string(), "second".to_string());
    let found = config.find_profile_for_path_with_home("/home/hong/w/x", Some("/home/hong"));
    assert_eq!(found.map(|s| s.as_str()), Some("first"));
}

#[test]
fn find_profile_ignores_empty_mapping() {
    let mut config = Config::default();
    config.add_path_mapping("".to_string(), "all".to_string());
    assert_eq!(config.find_profile_for_path_with_home("/anything", None), None);
}

#[test]
fn find_profile_without_home_keeps_tilde() {
    let mut config = Config::default();
    config.add_path_mapping("~/work".to_string(), "work".to_string());
    assert_eq!(
        config.find_profile_for_path_with_home("~/work/repo", None).map(|s| s.as_str()),
        Some("work")
    );
}

#[test]
fn find_profile_for_path_with_absolute_mapping() {
    let mut config = Config::default();
    config.add_path_mapping("/opt/projects".to_string(), "proj".to_string());
    assert_eq!(
        config.find_profile_for_path("/opt/projects/a").map(|s| s.as_str()),
        Some("proj")
    );
}

#[test]
fn has_pat_tells_whether_token_is_stored() {
    let mut p = profile("Hong", "hong@company.com");
    assert!(!p.has_pat());
    p.encrypted_pat = Some("x".to_string());
    assert!(p.has_pat());
}

#[test]
fn error_messages() {
    assert_eq!(Error::Git("x".to_string()).message(), "Git 에러: x");
    assert_eq!(Error::NotGitRepo.message(), "현재 디렉토리는 Git 저장소가 아닙니다");
    assert_eq!(
        Error::ProfileNotFound("work".to_string()).message(),
        "프로필 'work'을 찾을 수 없습니다"
    );
    assert_eq!(
        Error::ConfigNotFound.message(),
        "설정 파일이 없습니다. 'git-switcher init' 명령으로 초기화하세요"
    );
    assert_eq!(Error::Other("boom".to_string()).message(), "boom");
}

#[test]
fn detect_profile_gives_mapped_profile() {
    let mut config = Config::default();
    config.add_profile("work".to_string(), profile("Hong", "hong@company.com"));
    config.add_path_mapping("~/work".to_string(), "work".to_string());
    let (name, p) =
        AutoDetector::detect_profile_with_home(&config, "/home/hong/work/repo", Some("/home/hong"))
            .unwrap();
    assert_eq!(name, "work");
    assert_eq!(p.email, "hong@company.com");
}

#[test]
fn detect_profile_without_mapping_is_an_error() {
    let config = Config::default();
    match AutoDetector::detect_profile_with_home(&config, "/tmp/x", Some("/home/hong")) {
        Err(Error::Other(m)) => assert_eq!(m, "매핑된 프로필이 없습니다"),
        _ => panic!("expected the no-mapping error"),
    }
    match AutoDetector::detect_profile(&config, "/tmp/x") {
        Err(Error::Other(m)) => assert_eq!(m, "매핑된 프로필이 없습니다"),
        _ => panic!("expected the no-mapping error"),
    }
}

#[test]
fn detect_profile_of_unknown_profile_name() {
    let mut config = Config::default();
    config.add_path_mapping("/srv".to_string(), "server".to_string());
    match AutoDetector::detect_profile_with_home(&config, "/srv/app", None) {
        Err(Error::ProfileNotFound(n)) => assert_eq!(n, "server"),
        _ => panic!("expected ProfileNotFound"),
    }
}
