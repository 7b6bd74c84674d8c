//! Reading what git prints.
use vstd::prelude::*;
use vstd::string::*;

use crate::text::{is_char, split_on_char, split_where, split_whitespace, trim, trim_str, words};

verus! {

/// The remote named in `line` of `git remote -v` output, with its URL, when
/// the line is a fetch line: its third word is `(fetch)`.
pub open spec fn fetch_remote(line: Seq<char>) -> Option<(Seq<char>, Seq<char>)> {
    let w = words(line);
    if w.len() >= 3 && w[2] == "(fetch)"@ {
        Some((w[0], w[1]))
    } else {
        None
    }
}

/// The fetch remotes of `lines`, in order.
pub open spec fn fetch_remotes(lines: Seq<Seq<char>>) -> Seq<(Seq<char>, Seq<char>)>
    decreases lines.len(),
{
    if lines.len() == 0 {
        Seq::empty()
    } else {
        fetch_remotes(lines.drop_last()) + match fetch_remote(lines.last()) {
            Some(r) => seq![r],
            None => Seq::empty(),
        }
    }
}

/// The (name, URL) pairs that the output `out` of `git remote -v` lists for
/// fetching, in order.
pub open spec fn remotes_in_output(out: Seq<char>) -> Seq<(Seq<char>, Seq<char>)> {
    fetch_remotes(split_where(out, is_char('\n')))
}

/// Running git in the current repository.
pub struct GitConfig;

impl GitConfig {
    /// The (name, URL) pairs that `git remote -v` printed as `stdout` lists
    /// for fetching.
    pub fn parse_remotes(stdout: &str) -> (remotes: Vec<(String, String)>)
        ensures
            remotes.deep_view() == remotes_in_output(stdout@),
    {
        let lines = split_on_char(stdout, '\n');
        let ghost ls = lines.deep_view();
        let fetch = "(fetch)".to_owned();
        let mut remotes: Vec<(String, String)> = Vec::new();
        let mut i: usize = 0;
        assert(ls.take(0) =~= Seq::<Seq<char>>::empty());
        while i < lines.len()
            invariant
                ls == lines.deep_view(),
                fetch@ == "(fetch)"@,
                i <= ls.len(),
                remotes.deep_view() == fetch_remotes(ls.take(i as int)),
            decreases ls.len() - i,
        {
            assert(ls.take(i + 1).drop_last() =~= ls.take(i as int));
            assert(lines@[i as int]@ == ls[i as int]);
            let parts = split_whitespace(lines[i].as_str());
            if parts.len() >= 3 && parts[2] == fetch {
                let name = parts[0].clone();
                let url = parts[1].clone();
                remotes.push((name, url));
            }
            i += 1;
            assert(remotes.deep_view() =~= fetch_remotes(ls.take(i as int)));
        }
        assert(ls.take(ls.len() as int) =~= ls);
        remotes
    }

    /// The value that `git config` printed as `stdout`, without surrounding
    /// whitespace.
    pub fn parse_config_value(stdout: &str) -> (value: String)
        ensures
            value@ == trim(stdout@),
    {
        trim_str(stdout)
    }
}

} // verus!
