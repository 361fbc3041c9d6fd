//! The earlier loader: its per-mod state and configuration, and its asset
//! replacer, which produces a fresh replacement file on every open.

use vstd::prelude::*;
use vstd::hash_map::StringHashMap;
use crate::replacer::ReplacerError;

verus! {

/// Configuration of one mod.
pub struct ModConfig {
    pub name: String,
    pub trusted: bool,
}

/// The earlier loader's configuration.
#[derive(Default)]
pub struct Config {
    pub mods: Vec<ModConfig>,
}

/// What one mod has loaded, and whether it is trusted.
pub struct State {
    trusted: bool,
    dlls: StringHashMap<u64>,
}

impl State {
    pub closed spec fn trusted(&self) -> bool {
        self.trusted
    }

    pub closed spec fn dlls(&self) -> Map<Seq<char>, u64> {
        self.dlls@
    }

    pub fn new(trusted: bool) -> (r: State)
        ensures
            r.trusted() == trusted,
            r.dlls() == Map::<Seq<char>, u64>::empty(),
    {
        State { trusted, dlls: StringHashMap::new() }
    }

    pub fn is_trusted(&self) -> (r: bool)
        ensures
            r == self.trusted(),
    {
        self.trusted
    }

    /// Records the module handle of a loaded DLL under its name.
    pub fn add_dll(&mut self, name: String, dll: u64)
        ensures
            final(self).trusted() == old(self).trusted(),
            final(self).dlls() == old(self).dlls().insert(name@, dll),
    {
        self.dlls.insert(name, dll);
    }
}

/// A path handed to the open primitive, and whether it is a replacement,
/// which is deleted once it has been opened.
pub struct ReplacedPath {
    replaced: bool,
    path: String,
}

impl ReplacedPath {
    pub closed spec fn replaced(&self) -> bool {
        self.replaced
    }

    pub closed spec fn path(&self) -> Seq<char> {
        self.path@
    }

    pub fn is_replaced(&self) -> (r: bool)
        ensures
            r == self.replaced(),
    {
        self.replaced
    }

    pub fn path_str(&self) -> (r: &str)
        ensures
            r@ == self.path(),
    {
        self.path.as_str()
    }
}

/// Maps asset paths to the producers of their replacements, by token.
pub struct AssetReplacer {
    replacers: StringHashMap<u64>,
}

impl AssetReplacer {
    pub closed spec fn replacers(&self) -> Map<Seq<char>, u64> {
        self.replacers@
    }

    pub fn new() -> (r: AssetReplacer)
        ensures
            r.replacers() == Map::<Seq<char>, u64>::empty(),
    {
        AssetReplacer { replacers: StringHashMap::new() }
    }

    /// Registers `replacer` for `name`, replacing any earlier one.
    pub fn add(&mut self, name: &str, replacer: u64)
        ensures
            final(self).replacers() == old(self).replacers().insert(name@, replacer),
    {
        self.replacers.insert(name.to_owned(), replacer);
    }

    /// The producer registered for `path`, if any. Each open of a replaced
    /// path runs it again into a fresh file.
    pub fn get_replaced_path(&self, path: &str) -> (r: Option<u64>)
        ensures
            r matches Some(id) ==> self.replacers().contains_key(path@) && id == self.replacers()[path@],
            r is None ==> !self.replacers().contains_key(path@),
    {
        match self.replacers.get(path) {
            Some(id) => Some(*id),
            None => None,
        }
    }

    /// What an open of `path` uses. A registered path uses the fresh
    /// replacement `produced`; if its producer produced nothing, the open
    /// fails rather than falling back to the unmodified file. A path with no
    /// producer is opened as it is.
    pub fn resolve(&self, path: &str, produced: Option<String>) -> (r: Result<ReplacedPath, ReplacerError>)
        ensures
            self.replacers().contains_key(path@) && produced is Some
                ==> (r matches Ok(rp) && rp.replaced() && rp.path() == produced->Some_0@),
            self.replacers().contains_key(path@) && produced is None
                ==> r == Err::<ReplacedPath, ReplacerError>(ReplacerError::MaterializationFailed),
            !self.replacers().contains_key(path@) ==> (r matches Ok(rp) && !rp.replaced() && rp.path() == path@),
    {
        if self.replacers.contains_key(path) {
            match produced {
                Some(p) => Ok(ReplacedPath { replaced: true, path: p }),
                None => Err(ReplacerError::MaterializationFailed),
            }
        } else {
            Ok(ReplacedPath { replaced: false, path: path.to_owned() })
        }
    }
}

} // verus!
