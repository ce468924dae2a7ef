//! Where the network configuration comes from, as the user selected it.
use vstd::prelude::*;
use crate::errors::Error;
use vstd::string::StringSliceAdditionalSpecFns;

verus! {

/// The selected source of the network configuration.
#[derive(Debug)]
pub enum ConfigLocation {
    /// A file on this machine, by its absolute path.
    Local(String),
    /// A file in a GitHub repository, kept in a clone under the settings
    /// directory.
    Github { url: String, path: String, branch: String },
    /// Nothing selected.
    Unselected,
}

impl ConfigLocation {
    /// A copy of this location.
    pub fn duplicate(&self) -> (r: ConfigLocation)
        ensures
            r == *self,
    {
        match self {
            ConfigLocation::Local(p) => ConfigLocation::Local(p.clone()),
            ConfigLocation::Github { url, path, branch } => ConfigLocation::Github {
                url: url.clone(),
                path: path.clone(),
                branch: branch.clone(),
            },
            ConfigLocation::Unselected => ConfigLocation::Unselected,
        }
    }
}

/// The settings this tool keeps between runs.
#[derive(Debug)]
pub struct AppData {
    pub config_location: ConfigLocation,
}

impl AppData {
    /// Settings with no configuration selected.
    pub fn new() -> (r: AppData)
        ensures
            r.config_location == ConfigLocation::Unselected,
    {
        AppData { config_location: ConfigLocation::Unselected }
    }

    pub fn get_network_config_location(&self) -> (r: ConfigLocation)
        ensures
            r == self.config_location,
    {
        self.config_location.duplicate()
    }

    /// Records `location` as the selected configuration. Checking that it
    /// exists is the caller's part.
    pub fn set_network_config_location(&mut self, location: ConfigLocation)
        ensures
            final(self).config_location == location,
    {
        self.config_location = location;
    }
}

/// The repository and branch to bring up to date.
#[derive(Debug)]
pub struct PullTarget {
    pub url: String,
    pub branch: String,
}

/// Decides what `config pull` does for the selected location: a repository
/// is pulled on its branch; a local file and no selection are errors.
pub fn command_config_pull(location: &ConfigLocation) -> (r: Result<PullTarget, Error>)
    ensures
        match *location {
            ConfigLocation::Local(_) => r == Err::<PullTarget, Error>(Error::NotAGithubConfig),
            ConfigLocation::Github { url, path: _, branch } => r matches Ok(t) && t.url == url && t.branch
                == branch,
            ConfigLocation::Unselected => r == Err::<PullTarget, Error>(Error::NoConfigSelected),
        },
{
    match location {
        ConfigLocation::Local(_) => Err(Error::NotAGithubConfig),
        ConfigLocation::Github { url, path: _, branch } => Ok(PullTarget { url: url.clone(), branch: branch.clone() }),
        ConfigLocation::Unselected => Err(Error::NoConfigSelected),
    }
}

/// Repositories are selected by a URL with this prefix.
pub const GITHUB_PREFIX: &'static str = "https://github.com/";

/// The configuration file read from a repository unless another is named.
pub const DEFAULT_CONFIG_FILE: &'static str = "canzero.yaml";

/// The branch followed in a repository unless another is named.
pub const DEFAULT_BRANCH: &'static str = "main";

/// What selects no configuration.
pub const NO_SELECTION: &'static str = "none";

/// Whether `a` starts with the bytes `prefix`.
pub fn starts_with_bytes(a: &[u8], prefix: &[u8]) -> (r: bool)
    ensures
        r == (prefix@.len() <= a@.len() && a@.take(prefix@.len() as int) == prefix@),
{
    if prefix.len() > a.len() {
        return false;
    }
    let mut i: usize = 0;
    while i < prefix.len()
        invariant
            0 <= i <= prefix@.len() <= a@.len(),
            forall|j: int| 0 <= j < i ==> #[trigger] a@[j] == prefix@[j],
        decreases prefix.len() - i,
    {
        if a[i] != prefix[i] {
            assert(a@.take(prefix@.len() as int)[i as int] != prefix@[i as int]);
            return false;
        }
        i = i + 1;
    }
    assert(a@.take(prefix@.len() as int) =~= prefix@);
    true
}

/// The location that `config select <path> [--file f] [--branch b]` asks
/// for: a GitHub URL selects that repository, with the given file (else
/// the default one) on the given branch (else the default one); the word
/// `none` clears the selection; anything else is a local path, which the
/// caller makes absolute and checks.
pub fn command_config_select(path: &str, file: Option<&String>, branch: Option<&String>) -> (r: ConfigLocation)
    ensures
        ({
            let p = path.spec_bytes();
            let g = GITHUB_PREFIX.spec_bytes();
            if g.len() <= p.len() && p.take(g.len() as int) == g {
                r matches ConfigLocation::Github { url, path: f, branch: b } && url@ == path@ && f@ == (match file {
                    Some(x) => x@,
                    Option::None => DEFAULT_CONFIG_FILE@,
                }) && b@ == (match branch {
                    Some(x) => x@,
                    Option::None => DEFAULT_BRANCH@,
                })
            } else if p == NO_SELECTION.spec_bytes() {
                r == ConfigLocation::Unselected
            } else {
                r matches ConfigLocation::Local(l) && l@ == path@
            }
        }),
{
    let p = path.as_bytes();
    if starts_with_bytes(p, GITHUB_PREFIX.as_bytes()) {
        let f = match file {
            Some(x) => x.clone(),
            Option::None => DEFAULT_CONFIG_FILE.to_owned(),
        };
        let b = match branch {
            Some(x) => x.clone(),
            Option::None => DEFAULT_BRANCH.to_owned(),
        };
        ConfigLocation::Github { url: path.to_owned(), path: f, branch: b }
    } else {
        let none = NO_SELECTION.as_bytes();
        if none.len() == p.len() && starts_with_bytes(p, none) {
            assert(p@ =~= none@) by {
                assert(p@.take(none@.len() as int) =~= p@);
            }
            ConfigLocation::Unselected
        } else {
            assert(p@ != none@) by {
                if p@ == none@ {
                    assert(p@.take(none@.len() as int) =~= p@);
                }
            }
            ConfigLocation::Local(path.to_owned())
        }
    }
}

} // verus!
