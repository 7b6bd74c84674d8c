//! Remote URLs and the user names in them: HTTPS URLs that carry a user
//! name, the credentials to clear, the login in a GitHub API reply, and the
//! summary shown after a profile is applied.
use vstd::prelude::*;
use vstd::string::*;

use crate::config::{opt_view, Profile};
use crate::crypto::decrypt_outcome;
use crate::text::{
    contains, find, lemma_find, lemma_replace_absent, occurs_at, replace, replace_all, starts_with, str_contains, str_find,
    str_starts_with,
};

verus! {

/// The path segment after `.com/` in `url`, up to the next `/`.
pub open spec fn url_username(url: Seq<char>) -> Option<Seq<char>> {
    match find(url, ".com/"@) {
        Some(k) => {
            let path = url.skip(k + ".com/"@.len());
            match find(path, "/"@) {
                Some(j) => Some(path.take(j)),
                None => None,
            }
        },
        None => None,
    }
}

/// The HTTPS URL of `url` on `host` with `user` put in front of the host.
pub open spec fn https_with_user(url: Seq<char>, host: Seq<char>, user: Seq<char>) -> Seq<char> {
    "https://"@ + user + "@"@ + host + "/"@ + replace(url, "https://"@ + host + "/"@, Seq::empty())
}

/// `url` rewritten to carry the user name: `github` when given, otherwise the
/// one in the URL; only plain `https://github.com/` and `https://gitlab.com/`
/// URLs are rewritten.
pub open spec fn https_url_for(url: Seq<char>, github: Option<Seq<char>>) -> Option<Seq<char>> {
    let user = match github {
        Some(u) => Some(u),
        None => url_username(url),
    };
    if starts_with(url, "https://github.com/"@) && !contains(url, "@"@) {
        match user {
            Some(u) => Some(https_with_user(url, "github.com"@, u)),
            None => None,
        }
    } else if starts_with(url, "https://gitlab.com/"@) && !contains(url, "@"@) {
        match user {
            Some(u) => Some(https_with_user(url, "gitlab.com"@, u)),
            None => None,
        }
    } else {
        None
    }
}

/// A URL rewritten for HTTPS holds an `@`, so rewriting it again changes
/// nothing: the rewrite happens at most once.
pub proof fn lemma_https_rewrite_once(url: Seq<char>, g1: Option<Seq<char>>, g2: Option<Seq<char>>)
    requires
        https_url_for(url, g1) is Some,
    ensures
        https_url_for(https_url_for(url, g1)->0, g2) is None,
{
    reveal_strlit("@");
    reveal_strlit("https://");
    let v = https_url_for(url, g1)->0;
    let user = match g1 {
        Some(u) => u,
        None => url_username(url)->0,
    };
    let k = ("https://"@.len() + user.len()) as int;
    assert(v.subrange(k, k + 1) =~= "@"@);
    assert(occurs_at(v, "@"@, k));
}

/// A user name found in a URL is the whole path segment right after the
/// first `.com/`: it holds no `/`, and a `/` follows it. None is found exactly
/// when the URL has no `.com/`, or no `/` after its first `.com/`.
pub proof fn lemma_url_username_first_segment(url: Seq<char>)
    ensures
        match url_username(url) {
            Some(u) => {
                &&& !u.contains('/')
                &&& exists|k: int|
                    #![trigger url.subrange(k, k + 5)]
                    {
                        &&& 0 <= k
                        &&& k + 5 + u.len() < url.len()
                        &&& url.subrange(k, k + 5) == ".com/"@
                        &&& forall|j: int|
                            0 <= j < k ==> #[trigger] url.subrange(j, j + 5) != ".com/"@
                        &&& url.subrange(k + 5, k + 5 + u.len()) == u
                        &&& url[k + 5 + u.len()] == '/'
                    }
            },
            None => forall|k: int|
                #![trigger url.subrange(k, k + 5)]
                0 <= k && k + 5 <= url.len() && url.subrange(k, k + 5) == ".com/"@ && (forall|
                    j: int,
                | 0 <= j < k ==> #[trigger] url.subrange(j, j + 5) != ".com/"@) ==> !url.skip(
                    k + 5,
                ).contains('/'),
        },
{
    reveal_strlit(".com/");
    reveal_strlit("/");
    let c = ".com/"@;
    lemma_find(url, c);
    match find(url, c) {
        Some(k) => {
            let path = url.skip(k + 5);
            lemma_find(path, "/"@);
            assert(url.subrange(k, k + 5) == c);
            assert forall|j: int| 0 <= j < k implies #[trigger] url.subrange(j, j + 5) != c by {
                assert(!occurs_at(url, c, j));
            }
            assert forall|k2: int|
                0 <= k2 && k2 + 5 <= url.len() && #[trigger] url.subrange(k2, k2 + 5) == c && (forall|
                    j: int,
                | 0 <= j < k2 ==> #[trigger] url.subrange(j, j + 5) != c) implies k2 == k by {
                if k2 < k {
                    assert(!occurs_at(url, c, k2));
                    assert(occurs_at(url, c, k2));
                } else if k2 > k {
                    assert(url.subrange(k, k + 5) != c);
                }
            }
            match find(path, "/"@) {
                Some(p) => {
                    let u = path.take(p);
                    assert forall|i: int| 0 <= i < u.len() implies u[i] != '/' by {
                        assert(!occurs_at(path, "/"@, i));
                        if u[i] == '/' {
                            assert(path.subrange(i, i + 1) =~= "/"@);
                        }
                    }
                    assert(url.subrange(k + 5, k + 5 + u.len()) =~= u);
                    assert(path.subrange(p, p + 1) == "/"@);
                    assert(path.subrange(p, p + 1)[0] == path[p]);
                    assert(url[k + 5 + u.len()] == path[p]);
                },
                None => {
                    assert forall|i: int| 0 <= i < path.len() implies path[i] != '/' by {
                        if path[i] == '/' {
                            assert(path.subrange(i, i + 1) =~= "/"@);
                            assert(occurs_at(path, "/"@, i));
                        }
                    }
                },
            }
        },
        None => {
            assert forall|k2: int| 0 <= k2 && k2 + 5 <= url.len() implies #[trigger] url.subrange(
                k2,
                k2 + 5,
            ) != c by {
                if url.subrange(k2, k2 + 5) == c {
                    assert(occurs_at(url, c, k2));
                }
            }
        },
    }
}

/// Without a GitHub user name, a URL is rewritten exactly as it would be
/// for the user name it carries, on GitHub and GitLab alike, and not at all
/// when it carries none.
pub proof fn lemma_https_user_falls_back_to_url(url: Seq<char>)
    ensures
        https_url_for(url, None) == match url_username(url) {
            Some(u) => https_url_for(url, Some(u)),
            None => None::<Seq<char>>,
        },
{
}

/// A URL is rewritten exactly when it is a plain GitHub or GitLab HTTPS URL
/// without an `@` and there is a user name to put in it.
pub proof fn lemma_https_rewrites_only_plain(url: Seq<char>, github: Option<Seq<char>>)
    ensures
        https_url_for(url, github) is Some <==> {
            &&& starts_with(url, "https://github.com/"@) || starts_with(url, "https://gitlab.com/"@)
            &&& !contains(url, "@"@)
            &&& github is Some || url_username(url) is Some
        },
{
}

/// A plain GitHub or GitLab HTTPS URL, whose host prefix occurs only at its
/// start, becomes `https://`, the user name, `@`, the host, `/` and the rest
/// of the URL.
pub proof fn lemma_https_rewrite_shape(url: Seq<char>, host: Seq<char>, user: Seq<char>)
    requires
        host == "github.com"@ || host == "gitlab.com"@,
        url.len() >= host.len() + 9,
        url.take(host.len() + 9int) == "https://"@ + host + "/"@,
        !contains(url, "@"@),
        forall|i: int| #[trigger] occurs_at(url, "https://"@ + host + "/"@, i) ==> i == 0,
    ensures
        https_url_for(url, Some(user)) == Some(
            "https://"@ + user + "@"@ + host + "/"@ + url.skip(host.len() + 9int),
        ),
{
    reveal_strlit("https://");
    reveal_strlit("/");
    reveal_strlit("github.com");
    reveal_strlit("gitlab.com");
    reveal_strlit("https://github.com/");
    reveal_strlit("https://gitlab.com/");
    let pre = "https://"@ + host + "/"@;
    let n: int = host.len() + 9int;
    assert(pre.len() == n);
    assert(url.subrange(0, n) == pre);
    assert(occurs_at(url, pre, 0));
    let gh = "https://"@ + "github.com"@ + "/"@;
    let gl = "https://"@ + "gitlab.com"@ + "/"@;
    assert(gh =~= "https://github.com/"@);
    assert(gl =~= "https://gitlab.com/"@);
    if host == "gitlab.com"@ {
        assert(pre =~= "https://gitlab.com/"@);
        assert(pre[11] == 'l');
        assert(url.take(n)[11] == url[11]);
        assert(!starts_with(url, "https://github.com/"@)) by {
            if starts_with(url, "https://github.com/"@) {
                assert(url.subrange(0, 19)[11] == 'h');
            }
        }
    }
    let t = url.skip(n);
    assert forall|i: int| !#[trigger] occurs_at(t, pre, i) by {
        if occurs_at(t, pre, i) {
            assert(t.subrange(i, i + n) =~= url.subrange(i + n, i + n + n));
            assert(occurs_at(url, pre, i + n));
        }
    }
    lemma_replace_absent(t, pre, Seq::empty());
    assert(url.subrange(0, n) =~= url.take(n));
    assert(replace(url, pre, Seq::empty()) == Seq::<char>::empty() + replace(t, pre, Seq::empty()));
    assert(Seq::<char>::empty() + t =~= t);
}

/// Remote URLs and the user names they carry.
pub struct ProfileManager;

/// Credential handling for the user names found in remote URLs.
pub struct CredentialManager;

impl CredentialManager {
    /// The user name in `url`: the path segment after `.com/`, up to the next `/`.
    pub fn extract_username_from_url(url: &str) -> (r: Option<String>)
        ensures
            r.deep_view() == url_username(url@),
    {
        proof {
            reveal_strlit(".com/");
        }
        match str_find(url, ".com/") {
            Some(k) => {
                proof {
                    lemma_find(url@, ".com/"@);
                }
                let n = url.unicode_len();
                let path = url.substring_char(k + 5, n);
                assert(path@ =~= url@.skip(k + ".com/"@.len()));
                match str_find(path, "/") {
                    Some(j) => {
                        proof {
                            lemma_find(path@, "/"@);
                        }
                        let name = path.substring_char(0, j);
                        Some(name.to_owned())
                    },
                    None => None,
                }
            },
            None => None,
        }
    }
}

impl ProfileManager {
    /// The user name in `url`: the path segment after `.com/`, up to the next `/`.
    pub fn extract_username_from_url(url: &str) -> (r: Option<String>)
        ensures
            r.deep_view() == url_username(url@),
    {
        CredentialManager::extract_username_from_url(url)
    }

    /// `url` rewritten to carry the profile's GitHub user name (or the one in
    /// the URL), for plain GitHub and GitLab HTTPS URLs.
    pub fn transform_url_for_https(url: &str, profile: &Profile) -> (r: Option<String>)
        ensures
            r.deep_view() == https_url_for(url@, opt_view(profile.github_username)),
    {
        let has_at = str_contains(url, "@");
        if str_starts_with(url, "https://github.com/") && !has_at {
            let user = match &profile.github_username {
                Some(u) => u.clone(),
                None => match Self::extract_username_from_url(url) {
                    Some(u) => u,
                    None => return None,
                },
            };
            return Some(Self::https_with_user_text(url, "github.com", user.as_str()));
        }
        if str_starts_with(url, "https://gitlab.com/") && !has_at {
            let user = match &profile.github_username {
                Some(u) => u.clone(),
                None => match Self::extract_username_from_url(url) {
                    Some(u) => u,
                    None => return None,
                },
            };
            return Some(Self::https_with_user_text(url, "gitlab.com", user.as_str()));
        }
        None
    }

    fn https_with_user_text(url: &str, host: &str, user: &str) -> (r: String)
        ensures
            r@ == https_with_user(url@, host@, user@),
    {
        let mut prefix = "https://".to_owned();
        prefix.append(host);
        prefix.append("/");
        proof {
            reveal_strlit("https://");
        }
        let rest = replace_all(url, prefix.as_str(), "");
        let mut r = "https://".to_owned();
        r.append(user);
        r.append("@");
        r.append(host);
        r.append("/");
        r.append(rest.as_str());
        proof {
            reveal_strlit("");
            assert(""@ =~= Seq::<char>::empty());
        }
        assert(r@ =~= https_with_user(url@, host@, user@));
        r
    }
}

/// The user name the profile clears its own credentials under: its GitHub
/// user name, or empty text.
pub open spec fn own_username(github: Option<Seq<char>>) -> Seq<char> {
    match github {
        Some(g) => g,
        None => Seq::empty(),
    }
}

/// The user names found in the URLs of `remotes` that differ from `own`, in
/// order.
pub open spec fn usernames_to_clear(own: Seq<char>, remotes: Seq<(String, String)>) -> Seq<
    Seq<char>,
>
    decreases remotes.len(),
{
    if remotes.len() == 0 {
        Seq::empty()
    } else {
        usernames_to_clear(own, remotes.drop_last()) + match url_username(remotes.last().1@) {
            Some(u) => if u != own {
                seq![u]
            } else {
                Seq::empty()
            },
            None => Seq::empty(),
        }
    }
}

/// The value of the first `"login":"` field in `response`, up to the next `"`.
pub open spec fn login_in_response(response: Seq<char>) -> Option<Seq<char>> {
    match find(response, "\"login\":\""@) {
        Some(k) => {
            let rest = response.skip(k + "\"login\":\""@.len());
            match find(rest, "\""@) {
                Some(j) => Some(rest.take(j)),
                None => None,
            }
        },
        None => None,
    }
}

/// The login in a reply of the GitHub user API.
pub fn github_login_from_response(response: &str) -> (r: Option<String>)
    ensures
        r.deep_view() == login_in_response(response@),
{
    proof {
        reveal_strlit("\"login\":\"");
    }
    match str_find(response, "\"login\":\"") {
        Some(k) => {
            proof {
                lemma_find(response@, "\"login\":\""@);
            }
            let n = response.unicode_len();
            let rest = response.substring_char(k + 9, n);
            assert(rest@ =~= response@.skip(k + "\"login\":\""@.len()));
            match str_find(rest, "\"") {
                Some(j) => {
                    proof {
                        lemma_find(rest@, "\""@);
                    }
                    Some(rest.substring_char(0, j).to_owned())
                },
                None => None,
            }
        },
        None => None,
    }
}

/// The credentials cleared for the remotes never include the profile's own
/// user name: clearing them cannot log the profile itself out.
pub proof fn lemma_own_username_never_cleared(own: Seq<char>, remotes: Seq<(String, String)>)
    ensures
        forall|i: int|
            0 <= i < usernames_to_clear(own, remotes).len() ==> #[trigger] usernames_to_clear(
                own,
                remotes,
            )[i] != own,
    decreases remotes.len(),
{
    if remotes.len() > 0 {
        lemma_own_username_never_cleared(own, remotes.drop_last());
        let rest = usernames_to_clear(own, remotes.drop_last());
        assert forall|i: int|
            0 <= i < usernames_to_clear(own, remotes).len() implies #[trigger] usernames_to_clear(
                own,
                remotes,
            )[i] != own by {
            if i < rest.len() {
                assert(usernames_to_clear(own, remotes)[i] == rest[i]);
            }
        }
    }
}

impl CredentialManager {
    /// The user names in the URLs of `remotes` whose credentials must be
    /// cleared before `profile` is applied: those that differ from the
    /// profile's GitHub user name.
    pub fn remote_usernames_to_clear(profile: &Profile, remotes: &Vec<(String, String)>) -> (r: Vec<
        String,
    >)
        ensures
            r.deep_view() == usernames_to_clear(
                own_username(opt_view(profile.github_username)),
                remotes@,
            ),
    {
        let own = match &profile.github_username {
            Some(g) => g.clone(),
            None => String::new(),
        };
        let ghost own_v = own_username(opt_view(profile.github_username));
        let mut r: Vec<String> = Vec::new();
        let mut i: usize = 0;
        assert(remotes@.take(0) =~= Seq::<(String, String)>::empty());
        while i < remotes.len()
            invariant
                i <= remotes@.len(),
                own@ == own_v,
                r.deep_view() == usernames_to_clear(own_v, remotes@.take(i as int)),
            decreases remotes@.len() - i,
        {
            assert(remotes@.take(i + 1).drop_last() =~= remotes@.take(i as int));
            match Self::extract_username_from_url(remotes[i].1.as_str()) {
                Some(u) => {
                    if u != own {
                        r.push(u);
                    }
                },
                None => {},
            }
            i += 1;
            assert(r.deep_view() =~= usernames_to_clear(own_v, remotes@.take(i as int)));
        }
        assert(remotes@.take(remotes@.len() as int) =~= remotes@);
        r
    }
}

/// The lines shown after `p` is applied; `masked` is its token, masked, when
/// it can be shown.
pub open spec fn applied_summary(p: Profile, enable_ssh: bool, masked: Option<Seq<char>>) -> Seq<
    Seq<char>,
> {
    seq!["✓ 프로필이 적용되었습니다."@, "  이름: "@ + p.name@, "  이메일: "@ + p.email@] + match p.signingkey {
        Some(k) => seq!["  GPG 키: "@ + k@],
        None => Seq::empty(),
    } + if enable_ssh && p.ssh_key is Some {
        seq!["  SSH 연동: 활성화됨"@]
    } else if p.encrypted_pat is Some {
        match masked {
            Some(m) => seq![
                "  🔑 GitHub PAT: "@ + m,
                "  💡 PAT가 자동으로 설정되었습니다. push가 바로 가능합니다!"@,
            ],
            None => Seq::empty(),
        }
    } else {
        seq!["  💡 다음 push 시 새로운 PAT 입력이 필요합니다"@]
    }
}

fn labelled(label: &str, value: &str) -> (r: String)
    ensures
        r@ == label@ + value@,
{
    let mut r = label.to_owned();
    r.append(value);
    r
}

impl ProfileManager {
    /// The lines shown after `profile` is applied, with `masked_pat` as its
    /// token shown masked.
    pub fn applied_profile_summary(profile: &Profile, enable_ssh: bool, masked_pat: Option<String>) -> (lines: Vec<String>)
        ensures
            lines.deep_view() == applied_summary(*profile, enable_ssh, masked_pat.deep_view()),
    {
        let mut lines: Vec<String> = Vec::new();
        lines.push("✓ 프로필이 적용되었습니다.".to_owned());
        lines.push(labelled("  이름: ", profile.name.as_str()));
        lines.push(labelled("  이메일: ", profile.email.as_str()));
        if let Some(key) = &profile.signingkey {
            lines.push(labelled("  GPG 키: ", key.as_str()));
        }
        if enable_ssh && profile.ssh_key.is_some() {
            lines.push("  SSH 연동: 활성화됨".to_owned());
        } else if profile.encrypted_pat.is_some() {
            if let Some(m) = &masked_pat {
                lines.push(labelled("  🔑 GitHub PAT: ", m.as_str()));
                lines.push("  💡 PAT가 자동으로 설정되었습니다. push가 바로 가능합니다!".to_owned());
            }
        } else {
            lines.push("  💡 다음 push 시 새로운 PAT 입력이 필요합니다".to_owned());
        }
        assert(lines.deep_view() =~= applied_summary(*profile, enable_ssh, masked_pat.deep_view()));
        lines
    }
}

/// For each remote of `remotes` whose URL is rewritten for HTTPS: its name,
/// its URL and the rewritten URL, in order.
pub open spec fn https_changes(remotes: Seq<(String, String)>, github: Option<Seq<char>>) -> Seq<
    (Seq<char>, Seq<char>, Seq<char>),
>
    decreases remotes.len(),
{
    if remotes.len() == 0 {
        Seq::empty()
    } else {
        https_changes(remotes.drop_last(), github) + match https_url_for(
            remotes.last().1@,
            github,
        ) {
            Some(n) => seq![(remotes.last().0@, remotes.last().1@, n)],
            None => Seq::empty(),
        }
    }
}

impl ProfileManager {
    /// The remotes of `remotes` whose URLs change for `profile` over HTTPS:
    /// name, old URL and new URL of each, in order.
    pub fn https_remote_changes(remotes: &Vec<(String, String)>, profile: &Profile) -> (r: Vec<
        (String, String, String),
    >)
        ensures
            r.deep_view() == https_changes(remotes@, opt_view(profile.github_username)),
    {
        let ghost g = opt_view(profile.github_username);
        let mut r: Vec<(String, String, String)> = Vec::new();
        let mut i: usize = 0;
        assert(remotes@.take(0) =~= Seq::<(String, String)>::empty());
        while i < remotes.len()
            invariant
                i <= remotes@.len(),
                g == opt_view(profile.github_username),
                r.deep_view() == https_changes(remotes@.take(i as int), g),
            decreases remotes@.len() - i,
        {
            assert(remotes@.take(i + 1).drop_last() =~= remotes@.take(i as int));
            let (name, url) = &remotes[i];
            if let Some(new_url) = Self::transform_url_for_https(url.as_str(), profile) {
                r.push((name.clone(), url.clone(), new_url));
            }
            i += 1;
            assert(r.deep_view() =~= https_changes(remotes@.take(i as int), g));
        }
        assert(remotes@.take(remotes@.len() as int) =~= remotes@);
        r
    }
}

/// A step of applying a profile to a repository.
#[derive(Debug, PartialEq, Eq)]
pub enum ApplyStep {
    /// Clear the cached credentials that could conflict with the profile.
    ClearCredentials,
    /// Set `user.name`.
    SetUserName(String),
    /// Set `user.email`.
    SetUserEmail(String),
    /// Set `user.signingkey`.
    SetSigningKey(String),
    /// Store the profile's token as the GitHub credentials.
    SetupPatCredentials,
}

/// The view of an `ApplyStep`.
pub enum ApplyStepView {
    ClearCredentials,
    SetUserName(Seq<char>),
    SetUserEmail(Seq<char>),
    SetSigningKey(Seq<char>),
    SetupPatCredentials,
}

impl DeepView for ApplyStep {
    type V = ApplyStepView;

    open spec fn deep_view(&self) -> ApplyStepView {
        match self {
            ApplyStep::ClearCredentials => ApplyStepView::ClearCredentials,
            ApplyStep::SetUserName(s) => ApplyStepView::SetUserName(s@),
            ApplyStep::SetUserEmail(s) => ApplyStepView::SetUserEmail(s@),
            ApplyStep::SetSigningKey(s) => ApplyStepView::SetSigningKey(s@),
            ApplyStep::SetupPatCredentials => ApplyStepView::SetupPatCredentials,
        }
    }
}

/// The steps of applying `p`, in order: clear conflicting credentials, set
/// the name and email, set the signing key when there is one, and store the
/// token as credentials when SSH is off and a token is stored.
pub open spec fn apply_steps(p: Profile, enable_ssh: bool) -> Seq<ApplyStepView> {
    seq![
        ApplyStepView::ClearCredentials,
        ApplyStepView::SetUserName(p.name@),
        ApplyStepView::SetUserEmail(p.email@),
    ] + match p.signingkey {
        Some(k) => seq![ApplyStepView::SetSigningKey(k@)],
        None => Seq::empty(),
    } + if !enable_ssh && p.encrypted_pat is Some {
        seq![ApplyStepView::SetupPatCredentials]
    } else {
        Seq::empty()
    }
}

/// Credentials are always cleared first, before anything is set.
pub proof fn lemma_credentials_cleared_first(p: Profile, enable_ssh: bool)
    ensures
        apply_steps(p, enable_ssh)[0] == ApplyStepView::ClearCredentials,
        forall|i: int|
            1 <= i < apply_steps(p, enable_ssh).len() ==> apply_steps(p, enable_ssh)[i]
                != ApplyStepView::ClearCredentials,
{
}

/// The token is stored as credentials exactly when SSH is off and a token is
/// stored, and then as the last step.
pub proof fn lemma_pat_setup_when(p: Profile, enable_ssh: bool)
    ensures
        apply_steps(p, enable_ssh).contains(ApplyStepView::SetupPatCredentials) <==> (!enable_ssh
            && p.encrypted_pat is Some),
        apply_steps(p, enable_ssh).contains(ApplyStepView::SetupPatCredentials) ==> apply_steps(
            p,
            enable_ssh,
        ).last() == ApplyStepView::SetupPatCredentials,
{
    let s = apply_steps(p, enable_ssh);
    if !(!enable_ssh && p.encrypted_pat is Some) {
        assert forall|i: int| 0 <= i < s.len() implies s[i] != ApplyStepView::SetupPatCredentials by {}
    } else {
        assert(s[s.len() - 1] == ApplyStepView::SetupPatCredentials);
    }
}

impl ProfileManager {
    /// The git steps that apply `profile`, in the order they run.
    pub fn apply_plan(profile: &Profile, enable_ssh: bool) -> (steps: Vec<ApplyStep>)
        ensures
            steps.deep_view() == apply_steps(*profile, enable_ssh),
    {
        let mut steps: Vec<ApplyStep> = Vec::new();
        steps.push(ApplyStep::ClearCredentials);
        steps.push(ApplyStep::SetUserName(profile.name.clone()));
        steps.push(ApplyStep::SetUserEmail(profile.email.clone()));
        if let Some(key) = &profile.signingkey {
            steps.push(ApplyStep::SetSigningKey(key.clone()));
        }
        if !enable_ssh && profile.encrypted_pat.is_some() {
            steps.push(ApplyStep::SetupPatCredentials);
        }
        assert(steps.deep_view() =~= apply_steps(*profile, enable_ssh));
        steps
    }
}

impl CredentialManager {
    /// The GitHub user name and token to store as the profile's credentials:
    /// there are some when the profile names a GitHub user and its stored
    /// token decrypts.
    pub fn pat_credentials(profile: &Profile) -> (r: Option<(String, String)>)
        ensures
            match profile.github_username {
                Some(u) => match profile.encrypted_pat {
                    Some(enc) => match decrypt_outcome(enc@) {
                        Ok(t) => r matches Some((ru, rt)) && ru@ == u@ && rt@ == t,
                        Err(_) => r is None,
                    },
                    None => r is None,
                },
                None => r is None,
            },
    {
        match &profile.github_username {
            Some(u) => match profile.get_decrypted_pat() {
                Ok(Some(pat)) => Some((u.clone(), pat)),
                _ => None,
            },
            None => None,
        }
    }
}

} // verus!
