use git_switcher::remote::github_login_from_response;
use git_switcher::{ApplyStep, Config, CredentialManager, GitConfig, Profile, ProfileManager, SshManager};

fn profile(github: Option<&str>, ssh_key: Option<&str>) -> Profile {
    Profile {
        name: "Hong".to_string(),
        email: "hong@company.com".to_string(),
        signingkey: None,
        ssh_key: ssh_key.map(|s| s.to_string()),
        github_username: github.map(|s| s.to_string()),
        encrypted_pat: None,
    }
}

#[test]
fn extract_username_from_github_url() {
    assert_eq!(
        ProfileManager::extract_username_from_url("https://github.com/whoisdreamer/blog").as_deref(),
        Some("whoisdreamer")
    );
    assert_eq!(
        CredentialManager::extract_username_from_url("git@gitlab.com:/team/repo").as_deref(),
        None
    );
    assert_eq!(CredentialManager::extract_username_from_url("https://github.com/solo"), None);
    assert_eq!(CredentialManager::extract_username_from_url("https://example.org/a/b"), None);
}

#[test]
fn https_url_gets_profile_username() {
    let p = profile(Some("hong-work"), None);
    assert_eq!(
        ProfileManager::transform_url_for_https("https://github.com/corp/app.git", &p).as_deref(),
        Some("https://hong-work@github.com/corp/app.git")
    );
    assert_eq!(
        ProfileManager::transform_url_for_https("https://gitlab.com/corp/app", &p).as_deref(),
        Some("https://hong-work@gitlab.com/corp/app")
    );
}

#[test]
fn https_url_falls_back_to_username_in_url() {
    let p = profile(None, None);
    assert_eq!(
        ProfileManager::transform_url_for_https("https://github.com/whoisdreamer/blog", &p).as_deref(),
        Some("https://whoisdreamer@github.com/whoisdreamer/blog")
    );
    assert_eq!(ProfileManager::transform_url_for_https("https://github.com/blog", &p), None);
}

#[test]
fn https_url_rewritten_at_most_once() {
    let p = profile(Some("hong"), None);
    let once = ProfileManager::transform_url_for_https("https://github.com/a/b", &p).unwrap();
    assert_eq!(ProfileManager::transform_url_for_https(&once, &p), None);
    assert_eq!(ProfileManager::transform_url_for_https("git@github.com:a/b.git", &p), None);
    assert_eq!(ProfileManager::transform_url_for_https("https://example.com/a/b", &p), None);
}

#[test]
fn https_url_replaces_every_prefix_occurrence() {
    let p = profile(Some("u"), None);
    assert_eq!(
        ProfileManager::transform_url_for_https("https://github.com/a/https://github.com/b", &p)
            .as_deref(),
        Some("https://u@github.com/a/b")
    );
}

#[test]
fn ssh_config_name_from_key_file() {
    assert_eq!(SshManager::extract_ssh_config_name("~/.ssh/id_ed25519_personal"), "personal");
    assert_eq!(SshManager::extract_ssh_config_name("/home/u/.ssh/id_rsa_work"), "work");
    assert_eq!(SshManager::extract_ssh_config_name("~/.ssh/mykey"), "mykey");
    assert_eq!(SshManager::extract_ssh_config_name("id_rsa_x"), "x");
    assert_eq!(SshManager::extract_ssh_config_name("~/.ssh/"), "");
}

#[test]
fn ssh_url_from_ssh_and_https_forms() {
    let p = profile(None, Some("~/.ssh/id_ed25519_personal"));
    assert_eq!(
        SshManager::transform_url_for_ssh("git@github.com:user/repo.git", &p).as_deref(),
        Some("git@github.com-personal:user/repo.git")
    );
    assert_eq!(
        SshManager::transform_url_for_ssh("https://github.com/user/repo.git", &p).as_deref(),
        Some("git@github.com-personal:user/repo.git")
    );
    assert_eq!(
        SshManager::transform_url_for_ssh("https://github.com/user/repo", &p).as_deref(),
        Some("git@github.com-personal:user/repo.git")
    );
    assert_eq!(
        SshManager::transform_url_for_ssh("https://gitlab.com/g/r.git.git", &p).as_deref(),
        Some("git@gitlab.com-personal:g/r.git")
    );
    assert_eq!(
        SshManager::transform_url_for_ssh("git@gitlab.com:g/r.git", &p).as_deref(),
        Some("git@gitlab.com-personal:g/r.git")
    );
    assert_eq!(SshManager::transform_url_for_ssh("https://example.com/a.git", &p), None);
}

#[test]
fn ssh_url_needs_key_and_is_rewritten_once() {
    let none = profile(None, None);
    assert_eq!(SshManager::transform_url_for_ssh("git@github.com:user/repo.git", &none), None);
    let p = profile(None, Some("~/.ssh/id_rsa_work"));
    let once = SshManager::transform_url_for_ssh("git@github.com:user/repo.git", &p).unwrap();
    assert_eq!(once, "git@github.com-work:user/repo.git");
    assert_eq!(SshManager::transform_url_for_ssh(&once, &p), None);
}

#[test]
fn ssh_config_example_lists_profiles_with_keys() {
    let mut config = Config::default();
    config.add_profile("work".to_string(), profile(None, Some("~/.ssh/id_ed25519_work")));
    config.add_profile("plain".to_string(), profile(None, None));
    let text = SshManager::generate_ssh_config_example(&config.profiles);
    let expected = "# ~/.ssh/config 파일에 추가할 설정 예시\n\n\
# work 프로필용 GitHub 설정\n\
Host github.com-work\n    HostName github.com\n    User git\n    IdentityFile ~/.ssh/id_ed25519_work\n    IdentitiesOnly yes\n\n\
# work 프로필용 GitLab 설정\n\
Host gitlab.com-work\n    HostName gitlab.com\n    User git\n    IdentityFile ~/.ssh/id_ed25519_work\n    IdentitiesOnly yes\n\n";
    assert_eq!(text, expected);
}

#[test]
fn ssh_config_example_without_keys_is_header_only() {
    let config = Config::init_default();
    assert_eq!(
        SshManager::generate_ssh_config_example(&config.profiles),
        "# ~/.ssh/config 파일에 추가할 설정 예시\n\n"
    );
}

#[test]
fn remote_changes_for_https_and_ssh() {
    let remotes = vec![
        ("origin".to_string(), "https://github.com/corp/app.git".to_string()),
        ("mirror".to_string(), "https://example.com/app.git".to_string()),
    ];
    let p = profile(Some("hong"), Some("~/.ssh/id_rsa_work"));
    let https = ProfileManager::https_remote_changes(&remotes, &p);
    assert_eq!(
        https,
        vec![(
            "origin".to_string(),
            "https://github.com/corp/app.git".to_string(),
            "https://hong@github.com/corp/app.git".to_string()
        )]
    );
    let ssh = SshManager::ssh_remote_changes(&remotes, &p);
    assert_eq!(
        ssh,
        vec![(
            "origin".to_string(),
            "https://github.com/corp/app.git".to_string(),
            "git@github.com-work:corp/app.git".to_string()
        )]
    );
}

#[test]
fn parse_remotes_keeps_fetch_lines() {
    let out = "origin\thttps://github.com/a/b.git (fetch)\norigin\thttps://github.com/a/b.git (push)\r\n\nup  git@github.com:c/d.git   (fetch)\nbroken line\n";
    let remotes = GitConfig::parse_remotes(out);
    assert_eq!(
        remotes,
        vec![
            ("origin".to_string(), "https://github.com/a/b.git".to_string()),
            ("up".to_string(), "git@github.com:c/d.git".to_string()),
        ]
    );
    assert!(GitConfig::parse_remotes("").is_empty());
}

#[test]
fn parse_config_value_trims_whitespace() {
    assert_eq!(GitConfig::parse_config_value("  Hong Gildong \n"), "Hong Gildong");
    assert_eq!(GitConfig::parse_config_value("\n"), "");
}

#[test]
fn usernames_to_clear_skip_own_name() {
    let remotes = vec![
        ("a".to_string(), "https://github.com/hong/x".to_string()),
        ("b".to_string(), "https://github.com/other/y".to_string()),
        ("c".to_string(), "git@github.com:nope".to_string()),
    ];
    let own = profile(Some("hong"), None);
    assert_eq!(
        CredentialManager::remote_usernames_to_clear(&own, &remotes),
        vec!["other".to_string()]
    );
    let anon = profile(None, None);
    assert_eq!(
        CredentialManager::remote_usernames_to_clear(&anon, &remotes),
        vec!["hong".to_string(), "other".to_string()]
    );
}

#[test]
fn login_from_github_api_reply() {
    let reply = "{\"id\":1,\"login\":\"whoisdreamer\",\"name\":\"x\"}";
    assert_eq!(github_login_from_response(reply).as_deref(), Some("whoisdreamer"));
    assert_eq!(github_login_from_response("{\"message\":\"Bad credentials\"}"), None);
    assert_eq!(github_login_from_response("{\"login\":\"unterminated"), None);
}

#[test]
fn summary_after_applying_profile() {
    let mut p = profile(Some("hong"), Some("~/.ssh/id_rsa_work"));
    p.signingkey = Some("ABC123".to_string());
    let ssh = ProfileManager::applied_profile_summary(&p, true, None);
    assert_eq!(
        ssh,
        vec![
            "✓ 프로필이 적용되었습니다.",
            "  이름: Hong",
            "  이메일: hong@company.com",
            "  GPG 키: ABC123",
            "  SSH 연동: 활성화됨",
        ]
    );
    let plain = ProfileManager::applied_profile_summary(&p, false, None);
    assert_eq!(plain.last().unwrap(), "  💡 다음 push 시 새로운 PAT 입력이 필요합니다");
    p.encrypted_pat = Some("enc".to_string());
    let pat = ProfileManager::applied_profile_summary(&p, false, Some("ghp_***1234".to_string()));
    assert_eq!(pat[4], "  🔑 GitHub PAT: ghp_***1234");
    assert_eq!(pat.len(), 6);
}

#[test]
fn apply_plan_clears_credentials_then_sets_identity() {
    let p = profile(Some("hong"), None);
    assert_eq!(
        ProfileManager::apply_plan(&p, false),
        vec![
            ApplyStep::ClearCredentials,
            ApplyStep::SetUserName("Hong".to_string()),
            ApplyStep::SetUserEmail("hong@company.com".to_string()),
        ]
    );
}

#[test]
fn apply_plan_sets_signing_key_when_present() {
    let mut p = profile(Some("hong"), Some("~/.ssh/id_hong"));
    p.signingkey = Some("ABCD1234".to_string());
    assert_eq!(
        ProfileManager::apply_plan(&p, true),
        vec![
            ApplyStep::ClearCredentials,
            ApplyStep::SetUserName("Hong".to_string()),
            ApplyStep::SetUserEmail("hong@company.com".to_string()),
            ApplyStep::SetSigningKey("ABCD1234".to_string()),
        ]
    );
}

#[test]
fn apply_plan_sets_up_token_only_without_ssh() {
    let mut p = profile(Some("hong"), None);
    p.signingkey = Some("KEY".to_string());
    p.set_encrypted_pat("ghp_abcdefgh1234").unwrap();
    assert_eq!(
        ProfileManager::apply_plan(&p, false),
        vec![
            ApplyStep::ClearCredentials,
            ApplyStep::SetUserName("Hong".to_string()),
            ApplyStep::SetUserEmail("hong@company.com".to_string()),
            ApplyStep::SetSigningKey("KEY".to_string()),
            ApplyStep::SetupPatCredentials,
        ]
    );
    let with_ssh = ProfileManager::apply_plan(&p, true);
    assert_eq!(with_ssh.len(), 4);
    assert!(!with_ssh.contains(&ApplyStep::SetupPatCredentials));
}

#[test]
fn pat_credentials_need_user_and_decryptable_token() {
    let mut p = profile(Some("hong"), None);
    assert_eq!(CredentialManager::pat_credentials(&p), None);
    p.set_encrypted_pat("ghp_abcdefgh1234").unwrap();
    assert_eq!(
        CredentialManager::pat_credentials(&p),
        Some(("hong".to_string(), "ghp_abcdefgh1234".to_string()))
    );
    let mut q = profile(None, None);
    q.set_encrypted_pat("ghp_abcdefgh1234").unwrap();
    assert_eq!(CredentialManager::pat_credentials(&q), None);
    p.encrypted_pat = Some("garbage".to_string());
    assert_eq!(CredentialManager::pat_credentials(&p), None);
}
