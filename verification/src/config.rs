//! Configuration of the engine: where the note tree lives and which
//! template new notes start from.

use vstd::prelude::*;
use crate::strutil::concat2;

verus! {

/// The basename of the index file inside the note tree. Fixed: the user
/// never needs to know where the index lives.
pub const DATABASE_FILE: &'static str = ".settle.sql";

/// The options the engine needs: the root directory of the note tree and
/// the path of the creation template (empty when there is none).
///
/// The surrounding application discovers these (configuration file,
/// environment); the engine only ever reads them as plain strings.
pub struct ConfigOptions {
    pub zettelkasten: String,
    pub template: String,
}

impl ConfigOptions {
    pub fn new(zettelkasten: String, template: String) -> (r: ConfigOptions)
        ensures
            r.zettelkasten@ == zettelkasten@,
            r.template@ == template@,
    {
        ConfigOptions { zettelkasten, template }
    }

    /// The path of the index file: `{root}/.settle.sql`.
    pub fn db_file(&self) -> (r: String)
        ensures
            r@ == self.spec_db_file(),
    {
        let with_slash = concat2(self.zettelkasten.as_str(), "/");
        concat2(with_slash.as_str(), DATABASE_FILE)
    }

    pub open spec fn spec_db_file(&self) -> Seq<char> {
        self.zettelkasten@ + "/"@ + DATABASE_FILE@
    }
}

/// Relies on `shellexpand::tilde`: a path that does not start with `~`
/// comes back unchanged; one that does gets the home directory spliced
/// in (or comes back unchanged when no home directory is known).
#[verifier::external_body]
fn sh_tilde(path: &str) -> (r: String)
    ensures
        r@ == path@ || (path@.len() > 0 && path@[0] == '~'),
{
    shellexpand::tilde(path).to_string()
}

/// Relies on `shellexpand::env`: expands `$VAR` references from the
/// environment; a string without any `$` comes back unchanged and
/// successfully, and only a failed variable lookup makes an error.
#[verifier::external_body]
fn sh_env(s: &str) -> (r: Option<String>)
    ensures
        r is None ==> exists|k: int| 0 <= k < s@.len() && s@[k] == '$',
        r matches Some(v) ==> ((forall|k: int| 0 <= k < s@.len() ==> s@[k] != '$') ==> v@ == s@),
{
    match shellexpand::env(s) {
        Ok(c) => Some(c.to_string()),
        Err(_) => None,
    }
}

/// Given a path, expand environment variables, and the tilde at its
/// beginning if there is one; a relative path is taken from the home
/// directory. `None` when a referenced variable is not set.
///
/// An absolute path free of `$` references passes through unchanged.
pub fn expand_path(path: &str) -> (r: Option<String>)
    ensures
        (path@.len() > 0 && path@[0] == '/' && (forall|k: int|
            0 <= k < path@.len() ==> path@[k] != '$')) ==> (r matches Some(v) && v@ == path@),
{
    if path.is_empty() {
        let copied = concat2(path, "");
        proof {
            reveal_strlit("");
            assert(copied@ =~= path@);
        }
        return Some(copied);
    }
    let cs = crate::strutil::chars_of(path);
    let c0 = cs[0];
    let pre = if c0 == '/' || c0 == '$' {
        concat2(path, "")
    } else if c0 == '~' {
        sh_tilde(path)
    } else {
        concat2("$HOME/", path)
    };
    proof {
        reveal_strlit("");
        if c0 == '/' {
            assert(pre@ =~= path@);
        }
    }
    sh_env(pre.as_str())
}

} // verus!
