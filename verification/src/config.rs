//! Profiles, the configuration that holds them, and path mappings.
use vstd::prelude::*;
use vstd::string::*;

use crate::error::Error;
use crate::keyed::{has_key, insert_entry, lookup, remove_entry, KeyedList};
use crate::text::{replace, replace_all, starts_with, str_starts_with};

verus! {

/// A git identity: what `user.name`, `user.email` and friends are set to.
pub struct Profile {
    pub name: String,
    pub email: String,
    pub signingkey: Option<String>,
    pub ssh_key: Option<String>,
    pub github_username: Option<String>,
    /// The GitHub personal access token, encrypted.
    pub encrypted_pat: Option<String>,
}

/// The view of an optional string.
pub open spec fn opt_view(o: Option<String>) -> Option<Seq<char>> {
    match o {
        Some(s) => Some(s@),
        None => None,
    }
}

impl Profile {
    /// Whether a token is stored.
    pub fn has_pat(&self) -> (b: bool)
        ensures
            b == (self.encrypted_pat is Some),
    {
        self.encrypted_pat.is_some()
    }
}

/// Applies the profile mapped to the current directory.
pub struct AutoDetector;

/// All profiles by name, and the directories mapped to profile names.
pub struct Config {
    pub profiles: KeyedList<Profile>,
    pub path_mappings: KeyedList<String>,
}

/// `path` with `~` replaced by the home directory, when it starts with `~/`
/// and the home directory is known. Every `~` in it is replaced.
pub open spec fn expand_path_spec(path: Seq<char>, home: Option<Seq<char>>) -> Seq<char> {
    if starts_with(path, "~/"@) && home is Some {
        replace(path, "~"@, home->0)
    } else {
        path
    }
}

/// `path` with `~` expanded to `home`.
pub fn expand_path_with_home(path: &str, home: Option<&str>) -> (r: String)
    ensures
        r@ == expand_path_spec(path@, home.deep_view()),
{
    if str_starts_with(path, "~/") {
        match home {
            Some(h) => {
                proof {
                    reveal_strlit("~");
                }
                replace_all(path, "~", h)
            },
            None => path.to_owned(),
        }
    } else {
        path.to_owned()
    }
}

/// The home directory of the user running the program, as text.
///
/// Calls `dirs::home_dir`. Nothing is stated of the result: it depends on the
/// environment and the platform.
#[verifier::external_body]
fn home_directory() -> (r: Option<String>) {
    dirs::home_dir().map(|p| p.to_string_lossy().to_string())
}

/// `path` with `~` expanded to the home directory of the user.
pub fn expand_path(path: &str) -> (r: String)
    ensures
        exists|home: Option<Seq<char>>| r@ == expand_path_spec(path@, home),
        !starts_with(path@, "~/"@) ==> r@ == path@,
{
    let home = home_directory();
    let h = match &home {
        Some(s) => Some(s.as_str()),
        None => None,
    };
    expand_path_with_home(path, h)
}

/// The mapping at `i` applies to `cur`: its expanded directory is not empty and
/// is a prefix of `cur`.
pub open spec fn mapping_applies(
    m: Seq<(String, String)>,
    cur: Seq<char>,
    home: Option<Seq<char>>,
    i: int,
) -> bool {
    let e = expand_path_spec(m[i].0@, home);
    e.len() > 0 && starts_with(cur, e)
}

/// The length of the expanded directory of the mapping at `i`.
pub open spec fn mapped_len(m: Seq<(String, String)>, home: Option<Seq<char>>, i: int) -> int {
    expand_path_spec(m[i].0@, home).len() as int
}

/// The mapping at `i` is the one that decides for `cur`: it applies, no
/// applying mapping has a longer directory, and none before it has one as long.
pub open spec fn is_best_mapping(
    m: Seq<(String, String)>,
    cur: Seq<char>,
    home: Option<Seq<char>>,
    i: int,
) -> bool {
    &&& 0 <= i < m.len()
    &&& mapping_applies(m, cur, home, i)
    &&& forall|j: int|
        0 <= j < m.len() && mapping_applies(m, cur, home, j) ==> mapped_len(m, home, j)
            <= mapped_len(m, home, i)
    &&& forall|j: int|
        0 <= j < i && mapping_applies(m, cur, home, j) ==> mapped_len(m, home, j) < mapped_len(
            m,
            home,
            i,
        )
}

/// The position of the mapping that decides for `cur`, if any applies.
pub open spec fn best_mapping(m: Seq<(String, String)>, cur: Seq<char>, home: Option<Seq<char>>) -> Option<int> {
    if exists|i: int| is_best_mapping(m, cur, home, i) {
        Some(choose|i: int| is_best_mapping(m, cur, home, i))
    } else {
        None
    }
}

/// The deciding mapping is unique, and there is one exactly when some mapping
/// applies.
pub proof fn lemma_best_mapping(m: Seq<(String, String)>, cur: Seq<char>, home: Option<Seq<char>>)
    ensures
        forall|i: int, j: int|
            is_best_mapping(m, cur, home, i) && is_best_mapping(m, cur, home, j) ==> i == j,
        best_mapping(m, cur, home) is None <==> forall|j: int|
            0 <= j < m.len() ==> !#[trigger] mapping_applies(m, cur, home, j),
{
    assert forall|i: int, j: int|
        is_best_mapping(m, cur, home, i) && is_best_mapping(m, cur, home, j) implies i == j by {
        if i < j {
            assert(mapped_len(m, home, i) < mapped_len(m, home, j));
        } else if j < i {
            assert(mapped_len(m, home, j) < mapped_len(m, home, i));
        }
    }
    if exists|j: int| 0 <= j < m.len() && mapping_applies(m, cur, home, j) {
        // The first applying mapping of greatest length is the deciding one.
        let w = choose|j: int| 0 <= j < m.len() && mapping_applies(m, cur, home, j);
        let b = best_upto(m, cur, home, m.len() as int, w);
    }
}

/// Among positions below `n`, plus `w`: the first applying one of greatest length.
proof fn best_upto(m: Seq<(String, String)>, cur: Seq<char>, home: Option<Seq<char>>, n: int, w: int) -> (b: int)
    requires
        0 <= n <= m.len(),
        0 <= w < m.len(),
        mapping_applies(m, cur, home, w),
    ensures
        0 <= b < m.len(),
        mapping_applies(m, cur, home, b),
        b < n || b == w,
        forall|j: int|
            0 <= j < n && mapping_applies(m, cur, home, j) ==> mapped_len(m, home, j) <= mapped_len(
                m,
                home,
                b,
            ),
        mapped_len(m, home, w) <= mapped_len(m, home, b),
        forall|j: int|
            0 <= j < b && j < n && mapping_applies(m, cur, home, j) ==> mapped_len(m, home, j)
                < mapped_len(m, home, b),
        n == m.len() ==> is_best_mapping(m, cur, home, b),
    decreases n,
{
    if n == 0 {
        w
    } else {
        let b0 = best_upto(m, cur, home, n - 1, w);
        let k = n - 1;
        if mapping_applies(m, cur, home, k) && mapped_len(m, home, k) > mapped_len(m, home, b0) {
            k
        } else if mapping_applies(m, cur, home, k) && mapped_len(m, home, k) == mapped_len(m, home, b0) && k < b0 {
            k
        } else {
            b0
        }
    }
}

impl Config {
    /// The profile named `name`.
    pub fn get_profile(&self, name: &str) -> (r: Result<&Profile, Error>)
        ensures
            match r {
                Ok(p) => lookup(self.profiles@, name@) == Some(*p),
                Err(e) => lookup(self.profiles@, name@) is None && (e matches Error::ProfileNotFound(
                    n,
                ) && n@ == name@),
            },
    {
        match self.profiles.get(name) {
            Some(p) => Ok(p),
            None => Err(Error::ProfileNotFound(name.to_owned())),
        }
    }

    /// Stores `profile` under `name`, replacing any profile of that name.
    pub fn add_profile(&mut self, name: String, profile: Profile)
        ensures
            final(self).profiles@ == insert_entry(old(self).profiles@, name, profile),
            final(self).path_mappings@ == old(self).path_mappings@,
    {
        self.profiles.insert(name, profile);
    }

    /// Removes the profile named `name`; fails when there is none.
    pub fn remove_profile(&mut self, name: &str) -> (r: Result<(), Error>)
        ensures
            final(self).profiles@ == remove_entry(old(self).profiles@, name@),
            final(self).path_mappings@ == old(self).path_mappings@,
            match r {
                Ok(()) => has_key(old(self).profiles@, name@),
                Err(e) => !has_key(old(self).profiles@, name@) && (e matches Error::ProfileNotFound(
                    n,
                ) && n@ == name@),
            },
    {
        match self.profiles.remove(name) {
            Some(_) => Ok(()),
            None => Err(Error::ProfileNotFound(name.to_owned())),
        }
    }

    /// Maps the directory `path` to the profile named `profile`, replacing any
    /// mapping of that directory.
    pub fn add_path_mapping(&mut self, path: String, profile: String)
        ensures
            final(self).path_mappings@ == insert_entry(old(self).path_mappings@, path, profile),
            final(self).profiles@ == old(self).profiles@,
    {
        self.path_mappings.insert(path, profile);
    }

    /// Removes the mapping of the directory `path`; tells whether there was one.
    pub fn remove_path_mapping(&mut self, path: &str) -> (removed: bool)
        ensures
            final(self).path_mappings@ == remove_entry(old(self).path_mappings@, path@),
            final(self).profiles@ == old(self).profiles@,
            removed == has_key(old(self).path_mappings@, path@),
    {
        self.path_mappings.remove(path).is_some()
    }

    /// The profile name mapped to the directory that holds `current_path` most
    /// specifically, with `~` in mapped directories standing for `home`.
    pub fn find_profile_for_path_with_home(&self, current_path: &str, home: Option<&str>) -> (r:
        Option<&String>)
        ensures
            match r {
                Some(p) => best_mapping(self.path_mappings@, current_path@, home.deep_view())
                    matches Some(i) && *p == self.path_mappings@[i].1,
                None => best_mapping(self.path_mappings@, current_path@, home.deep_view()) is None,
            },
    {
        let ghost m = self.path_mappings@;
        let ghost h = home.deep_view();
        let es = self.path_mappings.entries();
        let mut best: Option<usize> = None;
        let mut best_len: usize = 0;
        let mut i: usize = 0;
        while i < es.len()
            invariant
                es@ == m,
                h == home.deep_view(),
                i <= m.len(),
                match best {
                    None => best_len == 0 && forall|j: int|
                        0 <= j < i ==> !#[trigger] mapping_applies(m, current_path@, h, j),
                    Some(b) => {
                        &&& b < i
                        &&& mapping_applies(m, current_path@, h, b as int)
                        &&& best_len == mapped_len(m, h, b as int)
                        &&& forall|j: int|
                            0 <= j < i && mapping_applies(m, current_path@, h, j) ==> mapped_len(
                                m,
                                h,
                                j,
                            ) <= best_len
                        &&& forall|j: int|
                            0 <= j < b && mapping_applies(m, current_path@, h, j) ==> mapped_len(
                                m,
                                h,
                                j,
                            ) < best_len
                    },
                },
            decreases m.len() - i,
        {
            let expanded = expand_path_with_home(es[i].0.as_str(), home);
            let len = expanded.as_str().unicode_len();
            let applies = str_starts_with(current_path, expanded.as_str());
            assert(applies && len > 0 <==> mapping_applies(m, current_path@, h, i as int));
            assert(len == mapped_len(m, h, i as int));
            if applies && len > best_len {
                best = Some(i);
                best_len = len;
            }
            i += 1;
        }
        proof {
            lemma_best_mapping(m, current_path@, h);
        }
        match best {
            Some(b) => {
                assert(is_best_mapping(m, current_path@, h, b as int));
                Some(&es[b].1)
            },
            None => None,
        }
    }

    /// The profile name mapped to the directory that holds `current_path` most
    /// specifically, with `~` standing for the user's home directory.
    pub fn find_profile_for_path(&self, current_path: &str) -> (r: Option<&String>)
        ensures
            exists|home: Option<Seq<char>>|
                match r {
                    Some(p) => best_mapping(self.path_mappings@, current_path@, home) matches Some(
                        i,
                    ) && *p == self.path_mappings@[i].1,
                    None => best_mapping(self.path_mappings@, current_path@, home) is None,
                },
    {
        let home = home_directory();
        let h = match &home {
            Some(s) => Some(s.as_str()),
            None => None,
        };
        self.find_profile_for_path_with_home(current_path, h)
    }
}

/// `p` is a placeholder profile named "Your Name" with the given email and
/// GitHub user name, and nothing else set.
pub open spec fn is_placeholder_profile(p: Profile, email: Seq<char>, github: Seq<char>) -> bool {
    &&& p.name@ == "Your Name"@
    &&& p.email@ == email
    &&& p.signingkey is None
    &&& p.ssh_key is None
    &&& opt_view(p.github_username) == Some(github)
    &&& p.encrypted_pat is None
}

fn placeholder_profile(email: &str, github: &str) -> (p: Profile)
    ensures
        is_placeholder_profile(p, email@, github@),
{
    Profile {
        name: "Your Name".to_owned(),
        email: email.to_owned(),
        signingkey: None,
        ssh_key: None,
        github_username: Some(github.to_owned()),
        encrypted_pat: None,
    }
}

impl Default for Config {
    /// A configuration with no profiles and no mappings.
    fn default() -> (c: Self)
        ensures
            c.profiles@.len() == 0,
            c.path_mappings@.len() == 0,
    {
        Config { profiles: KeyedList::new(), path_mappings: KeyedList::new() }
    }
}

impl Config {
    /// The starting configuration: a "personal" and a "company" profile, with
    /// `~/workspace/personal/` and `~/workspace/company/` mapped to them.
    pub fn init_default() -> (c: Config)
        ensures
            c.profiles@.len() == 2,
            c.profiles@[0].0@ == "personal"@,
            is_placeholder_profile(
                c.profiles@[0].1,
                "your.email@personal.com"@,
                "your-github-username"@,
            ),
            c.profiles@[1].0@ == "company"@,
            is_placeholder_profile(
                c.profiles@[1].1,
                "your.email@company.com"@,
                "your-work-username"@,
            ),
            c.path_mappings@.len() == 2,
            c.path_mappings@[0].0@ == "~/workspace/personal/"@,
            c.path_mappings@[0].1@ == "personal"@,
            c.path_mappings@[1].0@ == "~/workspace/company/"@,
            c.path_mappings@[1].1@ == "company"@,
    {
        proof {
            reveal_strlit("personal");
            reveal_strlit("company");
            reveal_strlit("~/workspace/personal/");
            reveal_strlit("~/workspace/company/");
        }
        let mut profiles: KeyedList<Profile> = KeyedList::new();
        let personal = placeholder_profile("your.email@personal.com", "your-github-username");
        profiles.insert("personal".to_owned(), personal);
        assert(profiles@[0].0@ == "personal"@);
        let company = placeholder_profile("your.email@company.com", "your-work-username");
        let company_key = "company".to_owned();
        assert(!has_key(profiles@, company_key@)) by {
            assert("personal"@[0] != "company"@[0]);
        }
        profiles.insert(company_key, company);
        let mut path_mappings: KeyedList<String> = KeyedList::new();
        path_mappings.insert("~/workspace/personal/".to_owned(), "personal".to_owned());
        let company_path = "~/workspace/company/".to_owned();
        assert(!has_key(path_mappings@, company_path@)) by {
            assert("~/workspace/personal/"@[12] != "~/workspace/company/"@[12]);
        }
        path_mappings.insert(company_path, "company".to_owned());
        Config { profiles, path_mappings }
    }
}

/// Whether `r` is what auto-detection gives for `path` in `config`, with `~`
/// in mapped directories standing for `home`: the most specific mapped
/// profile name with its profile, the missing profile's error, or the error
/// that no profile is mapped.
pub open spec fn is_detection(
    config: Config,
    path: Seq<char>,
    home: Option<Seq<char>>,
    r: Result<(&String, &Profile), Error>,
) -> bool {
    match best_mapping(config.path_mappings@, path, home) {
        None => r matches Err(e) && e matches Error::Other(m) && m@ == "매핑된 프로필이 없습니다"@,
        Some(i) => {
            let name = config.path_mappings@[i].1;
            match lookup(config.profiles@, name@) {
                Some(p) => r matches Ok((n, q)) && *n == name && *q == p,
                None => r matches Err(e) && e matches Error::ProfileNotFound(n) && n@ == name@,
            }
        },
    }
}

impl AutoDetector {
    /// The profile mapped to `current_path`, with its name; `~` in mapped
    /// directories stands for `home`.
    pub fn detect_profile_with_home<'a>(
        config: &'a Config,
        current_path: &str,
        home: Option<&str>,
    ) -> (r: Result<(&'a String, &'a Profile), Error>)
        ensures
            is_detection(*config, current_path@, home.deep_view(), r),
    {
        match config.find_profile_for_path_with_home(current_path, home) {
            Some(name) => match config.get_profile(name.as_str()) {
                Ok(p) => Ok((name, p)),
                Err(e) => Err(e),
            },
            None => Err(Error::Other("매핑된 프로필이 없습니다".to_string())),
        }
    }

    /// The profile mapped to the current directory `current_path`, with its
    /// name; `~` in mapped directories stands for the user's home directory.
    pub fn detect_profile<'a>(config: &'a Config, current_path: &str) -> (r: Result<
        (&'a String, &'a Profile),
        Error,
    >)
        ensures
            exists|home: Option<Seq<char>>| is_detection(*config, current_path@, home, r),
    {
        let home = home_directory();
        let h = match &home {
            Some(s) => Some(s.as_str()),
            None => None,
        };
        Self::detect_profile_with_home(config, current_path, h)
    }
}

} // verus!
