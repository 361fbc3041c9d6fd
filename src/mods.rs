//! Mods as the loader sees them: the game they run in, whether they are
//! compatible with it, and what they have loaded.

use vstd::prelude::*;
use vstd::hash_map::StringHashMap;

verus! {

/// The volume of the collection that is running.
#[derive(Clone, Copy, Debug, PartialEq, Eq, Hash, Structural)]
pub enum GameVolume {
    Vol1,
    Vol2,
}

/// Sections of the game executable.
#[derive(Clone, Default)]
pub struct Sections {
    pub text: Option<Vec<u8>>,
}

/// The game a mod runs in.
#[derive(Clone)]
pub struct GameEnv {
    pub volume: GameVolume,
    pub exe_crc32: u32,
    pub sections: Sections,
}

/// Which of a mod's requirements the running game meets.
#[derive(Clone, Copy, Debug, PartialEq, Eq, Structural)]
pub struct Compatibility {
    pub loader_version: bool,
    pub game: bool,
    pub exe_crc32: bool,
}

impl Compatibility {
    /// A mod is compatible when it meets every requirement.
    pub fn is_compatible(&self) -> (r: bool)
        ensures
            r == (self.loader_version && self.game && self.exe_crc32),
    {
        self.loader_version && self.game && self.exe_crc32
    }
}

/// What a mod requires of the game; an absent list requires nothing.
pub struct Requirements {
    pub games: Option<Vec<GameVolume>>,
    pub exe_crc32s: Option<Vec<u32>>,
}

pub open spec fn allows<T>(list: Option<Vec<T>>, x: T) -> bool {
    match list {
        None => true,
        Some(v) => v@.contains(x),
    }
}

fn contains_volume(v: &Vec<GameVolume>, x: GameVolume) -> (r: bool)
    ensures
        r == v@.contains(x),
{
    let mut i: usize = 0;
    while i < v.len()
        invariant
            i <= v@.len(),
            forall|k: int| 0 <= k < i ==> v@[k] != x,
        decreases v@.len() - i,
    {
        if v[i] == x {
            assert(v@[i as int] == x);
            return true;
        }
        i += 1;
    }
    false
}

fn contains_u32(v: &Vec<u32>, x: u32) -> (r: bool)
    ensures
        r == v@.contains(x),
{
    let mut i: usize = 0;
    while i < v.len()
        invariant
            i <= v@.len(),
            forall|k: int| 0 <= k < i ==> v@[k] != x,
        decreases v@.len() - i,
    {
        if v[i] == x {
            assert(v@[i as int] == x);
            return true;
        }
        i += 1;
    }
    false
}

/// Checks a mod's requirements against the running game.
/// `loader_version_ok` says whether the loader's version meets the mod's
/// version requirement.
pub fn check_compatibility(game_env: &GameEnv, req: &Requirements, loader_version_ok: bool) -> (r: Compatibility)
    ensures
        r.loader_version == loader_version_ok,
        r.game == allows(req.games, game_env.volume),
        r.exe_crc32 == allows(req.exe_crc32s, game_env.exe_crc32),
{
    let game = match &req.games {
        None => true,
        Some(v) => contains_volume(v, game_env.volume),
    };
    let exe_crc32 = match &req.exe_crc32s {
        None => true,
        Some(v) => contains_u32(v, game_env.exe_crc32),
    };
    Compatibility { loader_version: loader_version_ok, game, exe_crc32 }
}

/// Whether `pat` occurs in `data` at position `i`.
pub open spec fn pattern_at(data: Seq<u8>, pat: Seq<u8>, i: int) -> bool {
    0 <= i && i + pat.len() <= data.len() && data.subrange(i, i + pat.len()) == pat
}

/// The first position at which `pat` occurs in `data`, as when a hooked
/// function is located by its first bytes in the executable's text section.
pub fn find_pattern(data: &[u8], pat: &[u8]) -> (r: Option<usize>)
    requires
        pat@.len() > 0,
    ensures
        r matches Some(i) ==> pattern_at(data@, pat@, i as int)
            && forall|j: int| 0 <= j < i ==> !pattern_at(data@, pat@, j),
        r is None ==> forall|j: int| !pattern_at(data@, pat@, j),
{
    let n = data.len();
    let m = pat.len();
    if m > n {
        return None;
    }
    let mut i: usize = 0;
    while i <= n - m
        invariant
            n == data@.len(),
            m == pat@.len(),
            m <= n,
            i <= n - m + 1,
            forall|j: int| 0 <= j < i ==> !pattern_at(data@, pat@, j),
        decreases n - m + 1 - i,
    {
        let mut k: usize = 0;
        while k < m && data[i + k] == pat[k]
            invariant
                n == data@.len(),
                m == pat@.len(),
                i + m <= n,
                k <= m,
                forall|t: int| 0 <= t < k ==> data@[i + t] == pat@[t],
            decreases m - k,
        {
            k += 1;
        }
        if k == m {
            assert(data@.subrange(i as int, i + m) =~= pat@);
            return Some(i);
        }
        assert(!pattern_at(data@, pat@, i as int)) by {
            if pattern_at(data@, pat@, i as int) {
                assert(data@.subrange(i as int, i + m)[k as int] == data@[i + k]);
            }
        }
        i += 1;
    }
    None
}

/// The functions mods ask to be called when a game is loaded, each by the
/// token under which its caller keeps it.
pub struct ModFunctions {
    pub on_game_load_functions: Vec<u64>,
}

impl ModFunctions {
    pub fn new() -> (r: ModFunctions)
        ensures
            r.on_game_load_functions@.len() == 0,
    {
        ModFunctions { on_game_load_functions: Vec::new() }
    }
}

/// An audio file a mod adds.
pub struct WemFile {
    pub path: String,
    pub language_id: u32,
}

/// The audio files that mods add.
pub struct ModAudioFiles {
    pub pcks: Vec<String>,
    pub bnks: Vec<String>,
    pub wems: Vec<(u32, WemFile)>,
}

impl ModAudioFiles {
    pub fn new() -> (r: ModAudioFiles)
        ensures
            r.pcks@.len() == 0,
            r.bnks@.len() == 0,
            r.wems@.len() == 0,
    {
        ModAudioFiles { pcks: Vec::new(), bnks: Vec::new(), wems: Vec::new() }
    }
}

/// What one mod has loaded: its DLLs by name, each as an opaque module handle.
pub struct State {
    pub dlls: StringHashMap<u64>,
}

impl State {
    pub fn new() -> (r: State)
        ensures
            r.dlls@ == Map::<Seq<char>, u64>::empty(),
    {
        State { dlls: StringHashMap::new() }
    }
}

} // verus!
