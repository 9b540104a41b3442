//! Where the configuration lives.
use vstd::prelude::*;
use crate::android::DEFAULT_MODDIR;

verus! {

/// Locates the persisted configuration under the module directory.
pub struct ConfigManager {
    pub mod_dir: String,
}

/// `dir` joined with a relative file name the way `Path::join` does: no
/// separator after an empty directory or one that already ends with `/`.
pub open spec fn join_spec(dir: Seq<char>, name: Seq<char>) -> Seq<char> {
    if dir.len() == 0 || dir.last() == '/' {
        dir + name
    } else {
        dir + "/"@ + name
    }
}

impl ConfigManager {
    /// Uses `MODDIR` when it is set, the module's default directory otherwise.
    pub fn new(moddir_env: Option<String>) -> (r: Self)
        ensures
            r.mod_dir@ == (match moddir_env {
                Some(d) => d@,
                None => DEFAULT_MODDIR@,
            }),
    {
        match moddir_env {
            Some(d) => ConfigManager { mod_dir: d },
            None => ConfigManager { mod_dir: String::from_str(DEFAULT_MODDIR) },
        }
    }

    /// Path of `config.json`.
    pub fn json_path(&self) -> (r: String)
        ensures
            r@ == join_spec(self.mod_dir@, "config.json"@),
    {
        let d = self.mod_dir.as_str();
        let dc = crate::text::chars_of(d);
        let mut r = self.mod_dir.clone();
        if dc.len() == 0 || dc[dc.len() - 1] == '/' {
            r.append("config.json");
        } else {
            r.append("/");
            r.append("config.json");
        }
        r
    }
}

} // verus!
