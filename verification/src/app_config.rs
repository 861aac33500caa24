//! The configuration record and its field validators.
//!
//! `AppConfig` holds the two persisted settings. The two validators accept
//! or refuse a candidate value without touching the filesystem; `data_path`
//! derives the data-file location from the repository path by a pure join.

use crate::json::{config_from_json, config_json_chars, config_to_json, spec_parse_config};
use vstd::prelude::*;
use vstd::string::*;

verus! {

/// A repository path is accepted when it is absolute; on Unix-like hosts
/// that means it begins with the root separator.
pub open spec fn is_absolute_path(s: Seq<char>) -> bool {
    s.len() > 0 && s[0] == '/'
}

/// A GitHub token is accepted when it starts with `ghp_`.
pub open spec fn is_github_token(s: Seq<char>) -> bool {
    s.len() >= 4 && s.subrange(0, 4) == "ghp_"@
}

/// Joining a relative suffix onto a base path: an empty base leaves the
/// suffix alone, a base that already ends in the separator takes the suffix
/// directly, any other base gets one separator in between.
pub open spec fn spec_path_join(base: Seq<char>, rel: Seq<char>) -> Seq<char> {
    if base.len() == 0 {
        rel
    } else if base[base.len() - 1] == '/' {
        base + rel
    } else {
        base + seq!['/'] + rel
    }
}

/// Joins a relative suffix onto a base path.
pub fn path_join(base: &str, rel: &str) -> (r: String)
    ensures
        r@ == spec_path_join(base@, rel@),
{
    let n = base.unicode_len();
    if n == 0 {
        return rel.to_owned();
    }
    let last = base.get_char(n - 1);
    let mut out = base.to_owned();
    if last != '/' {
        crate::json::push_char(&mut out, '/');
        proof {
            assert(base@ + seq!['/'] =~= out@);
        }
    }
    out.append(rel);
    proof {
        assert(out@ =~= spec_path_join(base@, rel@));
    }
    out
}

/// The two persisted settings. Both fields may be empty, which is the state
/// before the user has configured anything.
#[allow(non_snake_case)]
pub struct AppConfig {
    pub GITHUB_TOKEN: String,
    pub REPO_PATH: String,
}

impl Default for AppConfig {
    /// The configuration written on first use: both fields empty.
    fn default() -> (c: AppConfig)
        ensures
            c.GITHUB_TOKEN@ == Seq::<char>::empty(),
            c.REPO_PATH@ == Seq::<char>::empty(),
    {
        AppConfig { GITHUB_TOKEN: String::new(), REPO_PATH: String::new() }
    }
}

impl AppConfig {
    /// Accepts a repository path exactly when it is absolute; the accepted
    /// value is returned unchanged.
    pub fn parse_repo_path(repo_path: &str) -> (r: Result<String, String>)
        ensures
            r is Ok <==> is_absolute_path(repo_path@),
            r matches Ok(p) ==> p@ == repo_path@,
            r matches Err(e) ==> e@ == "Repo-path must be an absolute path"@,
    {
        let n = repo_path.unicode_len();
        if n > 0 && repo_path.get_char(0) == '/' {
            Ok(repo_path.to_owned())
        } else {
            Err("Repo-path must be an absolute path".to_owned())
        }
    }

    /// Accepts a GitHub token exactly when it starts with `ghp_`; the
    /// accepted value is returned unchanged.
    pub fn parse_github_token(github_token: &str) -> (r: Result<String, String>)
        ensures
            r is Ok <==> is_github_token(github_token@),
            r matches Ok(t) ==> t@ == github_token@,
            r matches Err(e) ==> e@ == "GitHub token must start with 'ghp_'"@,
    {
        let n = github_token.unicode_len();
        if n >= 4 && github_token.get_char(0) == 'g' && github_token.get_char(1) == 'h'
            && github_token.get_char(2) == 'p' && github_token.get_char(3) == '_' {
            proof {
                reveal_strlit("ghp_");
                assert(github_token@.subrange(0, 4) =~= "ghp_"@);
            }
            Ok(github_token.to_owned())
        } else {
            proof {
                reveal_strlit("ghp_");
                if github_token@.len() >= 4 {
                    assert(github_token@.subrange(0, 4)[0] == github_token@[0]);
                    assert(github_token@.subrange(0, 4)[1] == github_token@[1]);
                    assert(github_token@.subrange(0, 4)[2] == github_token@[2]);
                    assert(github_token@.subrange(0, 4)[3] == github_token@[3]);
                }
            }
            Err("GitHub token must start with 'ghp_'".to_owned())
        }
    }

    /// The data-file location under the repository: the pure join of the
    /// repository path and the fixed suffix `data/git.json`.
    pub fn data_path(&self) -> (r: String)
        ensures
            r@ == spec_path_join(self.REPO_PATH@, "data/git.json"@),
    {
        path_join(self.REPO_PATH.as_str(), "data/git.json")
    }

    /// The exact file text for this configuration.
    pub fn to_json(&self) -> (r: String)
        ensures
            r@ == config_json_chars(self.GITHUB_TOKEN@, self.REPO_PATH@),
    {
        config_to_json(self.GITHUB_TOKEN.as_str(), self.REPO_PATH.as_str())
    }

    /// Reads a configuration from file text; `None` on malformed or
    /// schema-mismatched content.
    pub fn from_json(s: &str) -> (r: Option<AppConfig>)
        ensures
            match spec_parse_config(s@) {
                Some(tp) => r matches Some(c) && c.GITHUB_TOKEN@ == tp.0 && c.REPO_PATH@ == tp.1,
                None => r is None,
            },
    {
        match config_from_json(s) {
            Some((t, p)) => Some(AppConfig { GITHUB_TOKEN: t, REPO_PATH: p }),
            None => None,
        }
    }
}

} // verus!
