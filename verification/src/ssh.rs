//! SSH host aliases: names derived from key files, SSH remote URLs, and an
//! example `~/.ssh/config`.
use vstd::prelude::*;
use vstd::string::*;

use crate::config::Profile;
use crate::keyed::KeyedList;
use crate::text::{
    contains, last_segment, occurs_at, last_segment_str, replace, replace_all, starts_with, str_contains,
    str_starts_with, str_strip_prefix, trim_end_matches, trim_end_matches_str,
};

verus! {

/// The alias name of the key file `path`: its file name without an
/// `id_ed25519_` or `id_rsa_` prefix.
pub open spec fn ssh_config_name(path: Seq<char>) -> Seq<char> {
    let file = last_segment(path, '/');
    if starts_with(file, "id_ed25519_"@) {
        file.skip("id_ed25519_"@.len() as int)
    } else if starts_with(file, "id_rsa_"@) {
        file.skip("id_rsa_"@.len() as int)
    } else {
        file
    }
}

/// The SSH URL of the HTTPS `url` on `host`, through the alias of `name`.
pub open spec fn ssh_from_https(url: Seq<char>, host: Seq<char>, name: Seq<char>) -> Seq<char> {
    "git@"@ + host + "-"@ + name + ":"@ + trim_end_matches(
        replace(url, "https://"@ + host + "/"@, Seq::empty()),
        ".git"@,
    ) + ".git"@
}

/// `url` rewritten to go through the SSH alias of the key file `ssh_key`, for
/// GitHub and GitLab URLs in SSH or HTTPS form.
pub open spec fn ssh_url_for(url: Seq<char>, ssh_key: Option<Seq<char>>) -> Option<Seq<char>> {
    match ssh_key {
        None => None,
        Some(key) => {
            let name = ssh_config_name(key);
            if contains(url, "github.com"@) && starts_with(url, "git@github.com:"@) {
                Some(replace(url, "github.com"@, "github.com"@ + "-"@ + name))
            } else if contains(url, "github.com"@) && starts_with(url, "https://github.com/"@) {
                Some(ssh_from_https(url, "github.com"@, name))
            } else if contains(url, "gitlab.com"@) && starts_with(url, "git@gitlab.com:"@) {
                Some(replace(url, "gitlab.com"@, "gitlab.com"@ + "-"@ + name))
            } else if contains(url, "gitlab.com"@) && starts_with(url, "https://gitlab.com/"@) {
                Some(ssh_from_https(url, "gitlab.com"@, name))
            } else {
                None
            }
        },
    }
}

/// The example configuration block for the profile `name` with key file `key`.
pub open spec fn ssh_config_block(name: Seq<char>, key: Seq<char>) -> Seq<char> {
    let alias = ssh_config_name(key);
    "# "@ + name + " 프로필용 GitHub 설정\n"@ + "Host github.com-"@ + alias + "\n"@
        + "    HostName github.com\n"@ + "    User git\n"@ + "    IdentityFile "@ + key + "\n"@
        + "    IdentitiesOnly yes\n\n"@ + "# "@ + name + " 프로필용 GitLab 설정\n"@
        + "Host gitlab.com-"@ + alias + "\n"@ + "    HostName gitlab.com\n"@ + "    User git\n"@
        + "    IdentityFile "@ + key + "\n"@ + "    IdentitiesOnly yes\n\n"@
}

/// The blocks of all profiles of `entries` that have a key file, in order.
pub open spec fn ssh_config_blocks(entries: Seq<(String, Profile)>) -> Seq<char>
    decreases entries.len(),
{
    if entries.len() == 0 {
        Seq::empty()
    } else {
        ssh_config_blocks(entries.drop_last()) + match entries.last().1.ssh_key {
            Some(key) => ssh_config_block(entries.last().0@, key@),
            None => Seq::empty(),
        }
    }
}

/// The block of a profile names both of its host aliases: a
/// `Host github.com-<alias>` line and a `Host gitlab.com-<alias>` line, the
/// alias coming from the key file.
pub proof fn lemma_ssh_config_block_hosts(name: Seq<char>, key: Seq<char>)
    ensures
        contains(
            ssh_config_block(name, key),
            "Host github.com-"@ + ssh_config_name(key) + "\n"@,
        ),
        contains(
            ssh_config_block(name, key),
            "Host gitlab.com-"@ + ssh_config_name(key) + "\n"@,
        ),
{
    let alias = ssh_config_name(key);
    let h1 = "Host github.com-"@ + alias + "\n"@;
    let h2 = "Host gitlab.com-"@ + alias + "\n"@;
    let a = "# "@ + name + " 프로필용 GitHub 설정\n"@;
    let b = "    HostName github.com\n"@ + "    User git\n"@ + "    IdentityFile "@ + key + "\n"@
        + "    IdentitiesOnly yes\n\n"@ + "# "@ + name + " 프로필용 GitLab 설정\n"@;
    let c = "    HostName gitlab.com\n"@ + "    User git\n"@ + "    IdentityFile "@ + key + "\n"@
        + "    IdentitiesOnly yes\n\n"@;
    let blk = ssh_config_block(name, key);
    assert(blk =~= a + h1 + b + h2 + c);
    assert(blk.subrange(a.len() as int, (a.len() + h1.len()) as int) =~= h1);
    assert(occurs_at(blk, h1, a.len() as int));
    let k2 = (a.len() + h1.len() + b.len()) as int;
    assert(blk.subrange(k2, k2 + h2.len()) =~= h2);
    assert(occurs_at(blk, h2, k2));
}

/// The blocks of two lists of profiles, one after the other, are the blocks
/// of the first list followed by those of the second: adding profiles never
/// drops, changes or reorders the block of another profile.
pub proof fn lemma_ssh_config_blocks_concat(a: Seq<(String, Profile)>, b: Seq<(String, Profile)>)
    ensures
        ssh_config_blocks(a + b) == ssh_config_blocks(a) + ssh_config_blocks(b),
    decreases b.len(),
{
    if b.len() == 0 {
        assert(a + b =~= a);
        assert(ssh_config_blocks(a) + ssh_config_blocks(b) =~= ssh_config_blocks(a));
    } else {
        assert((a + b).drop_last() =~= a + b.drop_last());
        assert((a + b).last() == b.last());
        lemma_ssh_config_blocks_concat(a, b.drop_last());
        let tail = match b.last().1.ssh_key {
            Some(key) => ssh_config_block(b.last().0@, key@),
            None => Seq::<char>::empty(),
        };
        assert(ssh_config_blocks(a) + ssh_config_blocks(b.drop_last()) + tail =~= ssh_config_blocks(
            a,
        ) + (ssh_config_blocks(b.drop_last()) + tail));
    }
}

/// A profile without a key file contributes nothing; one with a key file
/// contributes its block.
pub proof fn lemma_ssh_config_blocks_single(e: (String, Profile))
    ensures
        ssh_config_blocks(seq![e]) == match e.1.ssh_key {
            Some(key) => ssh_config_block(e.0@, key@),
            None => Seq::<char>::empty(),
        },
{
    assert(seq![e].drop_last() =~= Seq::<(String, Profile)>::empty());
    let x = match e.1.ssh_key {
        Some(key) => ssh_config_block(e.0@, key@),
        None => Seq::<char>::empty(),
    };
    assert(ssh_config_blocks(Seq::<(String, Profile)>::empty()) == Seq::<char>::empty());
    assert(Seq::<char>::empty() + x =~= x);
    assert(seq![e].last() == e);
}

/// Every profile with a key file has its block in the configuration, right
/// after the blocks of the profiles before it.
pub proof fn lemma_ssh_config_blocks_contain_each(entries: Seq<(String, Profile)>, i: int)
    requires
        0 <= i < entries.len(),
        entries[i].1.ssh_key is Some,
    ensures
        occurs_at(
            ssh_config_blocks(entries),
            ssh_config_block(entries[i].0@, entries[i].1.ssh_key->0@),
            ssh_config_blocks(entries.take(i)).len() as int,
        ),
{
    let e = entries[i];
    let pre = entries.take(i);
    let post = entries.skip(i + 1);
    assert(entries =~= pre + seq![e] + post);
    lemma_ssh_config_blocks_concat(pre + seq![e], post);
    lemma_ssh_config_blocks_concat(pre, seq![e]);
    lemma_ssh_config_blocks_single(e);
    let blk = ssh_config_block(e.0@, e.1.ssh_key->0@);
    let all = ssh_config_blocks(pre) + blk + ssh_config_blocks(post);
    let k = ssh_config_blocks(pre).len() as int;
    assert(all.subrange(k, k + blk.len()) =~= blk);
}

/// The header of the example configuration.
pub open spec fn ssh_config_header() -> Seq<char> {
    "# ~/.ssh/config 파일에 추가할 설정 예시\n\n"@
}

/// Two texts that differ at position `i` cannot both begin `v`.
proof fn lemma_not_both_prefixes(v: Seq<char>, a: Seq<char>, b: Seq<char>, i: int)
    requires
        starts_with(v, a),
        0 <= i < a.len(),
        i < b.len(),
        a[i] != b[i],
    ensures
        !starts_with(v, b),
{
    assert(v.subrange(0, a.len() as int)[i] == a[i]);
    if starts_with(v, b) {
        assert(v.subrange(0, b.len() as int)[i] == b[i]);
    }
}

/// Rewriting an SSH URL `git@HOST:...` puts the alias right after `git@`.
proof fn lemma_alias_prefix(u: Seq<char>, host: Seq<char>, name: Seq<char>)
    requires
        host == "github.com"@ || host == "gitlab.com"@,
        starts_with(u, "git@"@ + host + ":"@),
    ensures
        starts_with(replace(u, host, host + "-"@ + name), "git@"@ + host + "-"@),
{
    reveal_strlit("git@");
    reveal_strlit("github.com");
    reveal_strlit("gitlab.com");
    reveal_strlit(":");
    reveal_strlit("-");
    let r = host + "-"@ + name;
    let pre = "git@"@ + host + ":"@;
    assert(u.subrange(0, pre.len() as int) == pre);
    assert forall|k: int| 0 <= k < pre.len() implies u[k] == pre[k] by {
        assert(u.subrange(0, pre.len() as int)[k] == pre[k]);
    }
    // The first four characters `git@` do not start the host name.
    assert(!starts_with(u, host)) by {
        if starts_with(u, host) {
            assert(u.subrange(0, host.len() as int)[3] == host[3]);
        }
    }
    assert(!starts_with(u.skip(1), host)) by {
        if starts_with(u.skip(1), host) {
            assert(u.skip(1).subrange(0, host.len() as int)[0] == host[0]);
        }
    }
    assert(!starts_with(u.skip(2), host)) by {
        if starts_with(u.skip(2), host) {
            assert(u.skip(2).subrange(0, host.len() as int)[0] == host[0]);
        }
    }
    assert(!starts_with(u.skip(3), host)) by {
        if starts_with(u.skip(3), host) {
            assert(u.skip(3).subrange(0, host.len() as int)[0] == host[0]);
        }
    }
    assert(starts_with(u.skip(4), host)) by {
        assert(u.skip(4).subrange(0, host.len() as int) =~= host);
    }
    assert(u.skip(1).skip(1) =~= u.skip(2));
    assert(u.skip(2).skip(1) =~= u.skip(3));
    assert(u.skip(3).skip(1) =~= u.skip(4));
    let rest = replace(u.skip(4).skip(host.len() as int), host, r);
    assert(replace(u.skip(4), host, r) == r + rest);
    assert(replace(u.skip(3), host, r) == seq![u[3]] + (r + rest));
    assert(replace(u.skip(2), host, r) == seq![u[2]] + (seq![u[3]] + (r + rest)));
    assert(replace(u.skip(1), host, r) == seq![u[1]] + (seq![u[2]] + (seq![u[3]] + (r + rest))));
    assert(replace(u, host, r) == seq![u[0]] + (seq![u[1]] + (seq![u[2]] + (seq![u[3]] + (r
        + rest)))));
    let v = replace(u, host, r);
    let want = "git@"@ + host + "-"@;
    assert(v.subrange(0, want.len() as int) =~= want);
}

/// A URL rewritten for SSH begins `git@HOST-`, so rewriting it again changes
/// nothing: the rewrite happens at most once.
pub proof fn lemma_ssh_rewrite_once(url: Seq<char>, k1: Option<Seq<char>>, k2: Option<Seq<char>>)
    requires
        ssh_url_for(url, k1) is Some,
    ensures
        ssh_url_for(ssh_url_for(url, k1)->0, k2) is None,
{
    reveal_strlit("git@");
    reveal_strlit("github.com");
    reveal_strlit("gitlab.com");
    reveal_strlit(":");
    reveal_strlit("-");
    reveal_strlit("git@github.com:");
    reveal_strlit("git@gitlab.com:");
    reveal_strlit("https://github.com/");
    reveal_strlit("https://gitlab.com/");
    let v = ssh_url_for(url, k1)->0;
    let name = ssh_config_name(k1->0);
    let host = if contains(url, "github.com"@) && (starts_with(url, "git@github.com:"@)
        || starts_with(url, "https://github.com/"@)) {
        "github.com"@
    } else {
        "gitlab.com"@
    };
    if contains(url, "github.com"@) && starts_with(url, "git@github.com:"@) {
        assert("git@github.com:"@ =~= "git@"@ + "github.com"@ + ":"@);
        lemma_alias_prefix(url, "github.com"@, name);
    } else if contains(url, "github.com"@) && starts_with(url, "https://github.com/"@) {
        let w = "git@"@ + host + "-"@;
        assert(v.subrange(0, w.len() as int) =~= w);
    } else if contains(url, "gitlab.com"@) && starts_with(url, "git@gitlab.com:"@) {
        assert("git@gitlab.com:"@ =~= "git@"@ + "gitlab.com"@ + ":"@);
        lemma_alias_prefix(url, "gitlab.com"@, name);
    } else {
        let w = "git@"@ + host + "-"@;
        assert(v.subrange(0, w.len() as int) =~= w);
    }
    let w = "git@"@ + host + "-"@;
    assert(starts_with(v, w));
    lemma_not_both_prefixes(v, w, "https://github.com/"@, 0);
    lemma_not_both_prefixes(v, w, "https://gitlab.com/"@, 0);
    if host == "github.com"@ {
        lemma_not_both_prefixes(v, w, "git@github.com:"@, 14);
        lemma_not_both_prefixes(v, w, "git@gitlab.com:"@, 7);
    } else {
        lemma_not_both_prefixes(v, w, "git@gitlab.com:"@, 14);
        lemma_not_both_prefixes(v, w, "git@github.com:"@, 7);
    }
}

/// SSH host aliases for profiles with their own key files.
pub struct SshManager;

impl SshManager {
    /// The alias name of the key file `ssh_key_path`, e.g. `personal` for
    /// `~/.ssh/id_ed25519_personal`.
    pub fn extract_ssh_config_name(ssh_key_path: &str) -> (r: String)
        ensures
            r@ == ssh_config_name(ssh_key_path@),
    {
        let file = last_segment_str(ssh_key_path, '/');
        if let Some(name) = str_strip_prefix(file.as_str(), "id_ed25519_") {
            return name;
        }
        if let Some(name) = str_strip_prefix(file.as_str(), "id_rsa_") {
            return name;
        }
        file
    }

    fn ssh_from_https_text(url: &str, host: &str, name: &str) -> (r: String)
        ensures
            r@ == ssh_from_https(url@, host@, name@),
    {
        let mut prefix = "https://".to_owned();
        prefix.append(host);
        prefix.append("/");
        proof {
            reveal_strlit("https://");
        }
        let repo_path = replace_all(url, prefix.as_str(), "");
        let repo_path = trim_end_matches_str(repo_path.as_str(), ".git");
        let mut r = "git@".to_owned();
        r.append(host);
        r.append("-");
        r.append(name);
        r.append(":");
        r.append(repo_path.as_str());
        r.append(".git");
        proof {
            reveal_strlit("");
            assert(""@ =~= Seq::<char>::empty());
        }
        assert(r@ =~= ssh_from_https(url@, host@, name@));
        r
    }

    fn with_alias(url: &str, host: &str, name: &str) -> (r: String)
        requires
            host@.len() > 0,
        ensures
            r@ == replace(url@, host@, host@ + "-"@ + name@),
    {
        let mut alias = host.to_owned();
        alias.append("-");
        alias.append(name);
        replace_all(url, host, alias.as_str())
    }

    /// `url` rewritten to go through the SSH alias of the profile's key file.
    pub fn transform_url_for_ssh(url: &str, profile: &Profile) -> (r: Option<String>)
        ensures
            r.deep_view() == ssh_url_for(url@, profile.ssh_key.deep_view()),
    {
        match &profile.ssh_key {
            Some(ssh_key) => {
                let name = Self::extract_ssh_config_name(ssh_key.as_str());
                proof {
                    reveal_strlit("github.com");
                    reveal_strlit("gitlab.com");
                }
                if str_contains(url, "github.com") {
                    if str_starts_with(url, "git@github.com:") {
                        return Some(Self::with_alias(url, "github.com", name.as_str()));
                    } else if str_starts_with(url, "https://github.com/") {
                        return Some(Self::ssh_from_https_text(url, "github.com", name.as_str()));
                    }
                }
                if str_contains(url, "gitlab.com") {
                    if str_starts_with(url, "git@gitlab.com:") {
                        return Some(Self::with_alias(url, "gitlab.com", name.as_str()));
                    } else if str_starts_with(url, "https://gitlab.com/") {
                        return Some(Self::ssh_from_https_text(url, "gitlab.com", name.as_str()));
                    }
                }
                None
            },
            None => None,
        }
    }

    fn ssh_config_block_text(name: &str, key: &str) -> (r: String)
        ensures
            r@ == ssh_config_block(name@, key@),
    {
        let alias = Self::extract_ssh_config_name(key);
        let mut r = "# ".to_owned();
        r.append(name);
        r.append(" 프로필용 GitHub 설정\n");
        r.append("Host github.com-");
        r.append(alias.as_str());
        r.append("\n");
        r.append("    HostName github.com\n");
        r.append("    User git\n");
        r.append("    IdentityFile ");
        r.append(key);
        r.append("\n");
        r.append("    IdentitiesOnly yes\n\n");
        r.append("# ");
        r.append(name);
        r.append(" 프로필용 GitLab 설정\n");
        r.append("Host gitlab.com-");
        r.append(alias.as_str());
        r.append("\n");
        r.append("    HostName gitlab.com\n");
        r.append("    User git\n");
        r.append("    IdentityFile ");
        r.append(key);
        r.append("\n");
        r.append("    IdentitiesOnly yes\n\n");
        assert(r@ =~= ssh_config_block(name@, key@));
        r
    }

    /// An example `~/.ssh/config` with a GitHub and a GitLab alias for every
    /// profile that has a key file, in the order of the profiles.
    pub fn generate_ssh_config_example(profiles: &KeyedList<Profile>) -> (config: String)
        ensures
            config@ == ssh_config_header() + ssh_config_blocks(profiles@),
    {
        let es = profiles.entries();
        let mut config = "# ~/.ssh/config 파일에 추가할 설정 예시\n\n".to_owned();
        let mut i: usize = 0;
        assert(es@.take(0) =~= Seq::<(String, Profile)>::empty());
        while i < es.len()
            invariant
                es@ == profiles@,
                i <= es@.len(),
                config@ == ssh_config_header() + ssh_config_blocks(es@.take(i as int)),
            decreases es@.len() - i,
        {
            assert(es@.take(i + 1).drop_last() =~= es@.take(i as int));
            let (profile_name, profile) = &es[i];
            if let Some(ssh_key) = &profile.ssh_key {
                let block = Self::ssh_config_block_text(profile_name.as_str(), ssh_key.as_str());
                config.append(block.as_str());
            }
            i += 1;
            assert(config@ =~= ssh_config_header() + ssh_config_blocks(es@.take(i as int)));
        }
        assert(es@.take(es@.len() as int) =~= es@);
        config
    }
}

/// For each remote of `remotes` whose URL is rewritten for SSH: its name, its
/// URL and the rewritten URL, in order.
pub open spec fn ssh_changes(remotes: Seq<(String, String)>, ssh_key: Option<Seq<char>>) -> Seq<
    (Seq<char>, Seq<char>, Seq<char>),
>
    decreases remotes.len(),
{
    if remotes.len() == 0 {
        Seq::empty()
    } else {
        ssh_changes(remotes.drop_last(), ssh_key) + match ssh_url_for(remotes.last().1@, ssh_key) {
            Some(n) => seq![(remotes.last().0@, remotes.last().1@, n)],
            None => Seq::empty(),
        }
    }
}

impl SshManager {
    /// The remotes of `remotes` whose URLs change for `profile` over SSH:
    /// name, old URL and new URL of each, in order.
    pub fn ssh_remote_changes(remotes: &Vec<(String, String)>, profile: &Profile) -> (r: Vec<
        (String, String, String),
    >)
        ensures
            r.deep_view() == ssh_changes(remotes@, profile.ssh_key.deep_view()),
    {
        let ghost k = profile.ssh_key.deep_view();
        let mut r: Vec<(String, String, String)> = Vec::new();
        let mut i: usize = 0;
        assert(remotes@.take(0) =~= Seq::<(String, String)>::empty());
        while i < remotes.len()
            invariant
                i <= remotes@.len(),
                k == profile.ssh_key.deep_view(),
                r.deep_view() == ssh_changes(remotes@.take(i as int), k),
            decreases remotes@.len() - i,
        {
            assert(remotes@.take(i + 1).drop_last() =~= remotes@.take(i as int));
            let (name, url) = &remotes[i];
            if let Some(new_url) = Self::transform_url_for_ssh(url.as_str(), profile) {
                r.push((name.clone(), url.clone(), new_url));
            }
            i += 1;
            assert(r.deep_view() =~= ssh_changes(remotes@.take(i as int), k));
        }
        assert(remotes@.take(remotes@.len() as int) =~= remotes@);
        r
    }
}

} // verus!
