//! Where `mtrm` keeps its files: a `.mtrm` directory in the home directory.

use vstd::prelude::*;

use crate::errors::ConfigError;
use crate::text::concat;

verus! {

/// The name of the data directory inside the home directory.
pub const DATA_DIR_NAME: &'static str = ".mtrm";

/// The name of the state file inside the data directory.
pub const STATE_FILE_NAME: &'static str = "state.toml";

/// The paths `mtrm` uses.
#[derive(Debug, Clone, PartialEq, Eq)]
pub struct MtrmPaths {
    pub home_dir: String,
    pub data_dir: String,
    pub state_file: String,
}

/// A relative path appended to `base`, with a separator unless `base` is
/// empty or already ends with one.
pub open spec fn path_join(base: Seq<char>, rel: Seq<char>) -> Seq<char> {
    if base.len() > 0 && base.last() != '/' {
        base + seq!['/'] + rel
    } else {
        base + rel
    }
}

/// A relative path appended to `base`.
pub fn join_path(base: &str, rel: &str) -> (r: String)
    ensures
        r@ == path_join(base@, rel@),
{
    let n = base.unicode_len();
    if n > 0 && base.get_char(n - 1) != '/' {
        let with_sep = concat(base, "/");
        proof {
            reveal_strlit("/");
        }
        concat(with_sep.as_str(), rel)
    } else {
        concat(base, rel)
    }
}

impl MtrmPaths {
    pub fn data_dir(&self) -> (p: &str)
        ensures
            p@ == self.data_dir@,
    {
        self.data_dir.as_str()
    }

    pub fn state_file(&self) -> (p: &str)
        ensures
            p@ == self.state_file@,
    {
        self.state_file.as_str()
    }
}

/// The paths under a home directory, which must not be empty.
pub fn resolve_paths_from_home(home_dir: String) -> (r: Result<MtrmPaths, ConfigError>)
    ensures
        r is Err <==> home_dir@.len() == 0,
        r is Err ==> r == Err::<MtrmPaths, ConfigError>(ConfigError::HomeDirUnavailable),
        r matches Ok(p) ==> p.home_dir@ == home_dir@ && p.data_dir@ == path_join(home_dir@, DATA_DIR_NAME@)
            && p.state_file@ == path_join(p.data_dir@, STATE_FILE_NAME@),
{
    if home_dir.as_str().unicode_len() == 0 {
        return Err(ConfigError::HomeDirUnavailable);
    }
    let data_dir = join_path(home_dir.as_str(), DATA_DIR_NAME);
    let state_file = join_path(data_dir.as_str(), STATE_FILE_NAME);
    Ok(MtrmPaths { home_dir, data_dir, state_file })
}

/// `directories::BaseDirs::new` and its home directory, as text. It depends
/// on the environment; nothing is claimed of it.
#[verifier::external_body]
fn home_dir_of_user() -> Option<String> {
    directories::BaseDirs::new().map(|dirs| dirs.home_dir().to_string_lossy().into_owned())
}

/// The paths under the user's home directory.
pub fn resolve_paths() -> (r: Result<MtrmPaths, ConfigError>)
    ensures
        r matches Ok(p) ==> p.home_dir@.len() > 0 && p.data_dir@ == path_join(p.home_dir@, DATA_DIR_NAME@)
            && p.state_file@ == path_join(p.data_dir@, STATE_FILE_NAME@),
        r is Err ==> r == Err::<MtrmPaths, ConfigError>(ConfigError::HomeDirUnavailable),
{
    match home_dir_of_user() {
        Some(home) => resolve_paths_from_home(home),
        None => Err(ConfigError::HomeDirUnavailable),
    }
}

} // verus!
