//! The replacement registry: maps a logical path to a producer that has not
//! run yet, or to the file its output was materialized into.
//!
//! Producers are named by an opaque `u64` token; whoever registers one keeps
//! the code that it stands for. Resolution is split in two steps so that the
//! file work happens outside the registry: `get` hands a pending producer out
//! exactly once, together with the file it must fill, and `complete` records
//! how that went.

use vstd::prelude::*;
use vstd::hash_map::StringHashMap;
use vstd::string::*;

verus! {

/// The code of one character in an escaped name: an underscore is doubled,
/// and each character that cannot stand in a file name becomes an
/// underscore and a letter.
pub open spec fn char_code(c: char) -> Seq<char> {
    if c == '_' {
        seq!['_', '_']
    } else if c == '/' {
        seq!['_', 'S']
    } else if c == '\\' {
        seq!['_', 'B']
    } else if c == ':' {
        seq!['_', 'C']
    } else {
        seq![c]
    }
}

/// The escaped form of `p`, character by character.
pub open spec fn escaped_name(p: Seq<char>) -> Seq<char>
    decreases p.len(),
{
    if p.len() == 0 {
        seq![]
    } else {
        char_code(p[0]) + escaped_name(p.drop_first())
    }
}

proof fn lemma_escape_push(s: Seq<char>, c: char)
    ensures
        escaped_name(s.push(c)) == escaped_name(s) + char_code(c),
    decreases s.len(),
{
    if s.len() == 0 {
        assert(s.push(c).drop_first() =~= Seq::<char>::empty());
        assert(escaped_name(Seq::<char>::empty()) == Seq::<char>::empty());
        assert(escaped_name(s.push(c)) =~= char_code(c) + Seq::<char>::empty());
        assert(escaped_name(s) == Seq::<char>::empty());
        assert(escaped_name(s.push(c)) =~= escaped_name(s) + char_code(c));
    } else {
        assert(s.push(c).drop_first() =~= s.drop_first().push(c));
        lemma_escape_push(s.drop_first(), c);
        assert(escaped_name(s.push(c)) =~= escaped_name(s) + char_code(c));
    }
}

/// Distinct paths have distinct escaped names.
pub proof fn lemma_escape_injective(a: Seq<char>, b: Seq<char>)
    requires
        escaped_name(a) == escaped_name(b),
    ensures
        a == b,
    decreases a.len() + b.len(),
{
    let ea = escaped_name(a);
    if a.len() == 0 || b.len() == 0 {
        if a.len() != 0 {
            assert(ea.len() >= 1);
        }
        if b.len() != 0 {
            assert(escaped_name(b).len() >= 1);
        }
        assert(a =~= b);
    } else {
        let ca = char_code(a[0]);
        let cb = char_code(b[0]);
        assert(ea[0] == ca[0]);
        assert(escaped_name(b)[0] == cb[0]);
        if ca.len() == 2 {
            assert(ea[1] == ca[1]);
            assert(escaped_name(b)[1] == cb[1]);
        }
        assert(a[0] == b[0]);
        assert(escaped_name(a.drop_first()) =~= ea.subrange(ca.len() as int, ea.len() as int));
        assert(escaped_name(b.drop_first()) =~= escaped_name(b).subrange(cb.len() as int, ea.len() as int));
        lemma_escape_injective(a.drop_first(), b.drop_first());
        assert forall|k: int| 0 <= k < a.len() implies a[k] == b[k] by {
            if k > 0 {
                assert(a[k] == a.drop_first()[k - 1]);
                assert(b[k] == b.drop_first()[k - 1]);
            }
        }
        assert(a =~= b);
    }
}

/// Escapes a logical path into a single flat file name.
pub fn escape_name(path: &str) -> (r: String)
    ensures
        r@ == escaped_name(path@),
{
    let n = path.unicode_len();
    let mut out = String::new();
    let mut i: usize = 0;
    assert(path@.subrange(0, 0) =~= Seq::<char>::empty());
    while i < n
        invariant
            n == path@.len(),
            i <= n,
            out@ == escaped_name(path@.subrange(0, i as int)),
        decreases n - i,
    {
        let c = path.get_char(i);
        proof {
            assert(path@.subrange(0, i + 1) =~= path@.subrange(0, i as int).push(c));
            lemma_escape_push(path@.subrange(0, i as int), c);
        }
        let ghost before = out@;
        if c == '_' {
            out.append("__");
            proof {
                reveal_strlit("__");
                assert("__"@ =~= seq!['_', '_']);
            }
            assert(out@ =~= before + char_code(c));
        } else if c == '/' {
            out.append("_S");
            proof {
                reveal_strlit("_S");
                assert("_S"@ =~= seq!['_', 'S']);
            }
            assert(out@ =~= before + char_code(c));
        } else if c == '\\' {
            out.append("_B");
            proof {
                reveal_strlit("_B");
                assert("_B"@ =~= seq!['_', 'B']);
            }
            assert(out@ =~= before + char_code(c));
        } else if c == ':' {
            out.append("_C");
            proof {
                reveal_strlit("_C");
                assert("_C"@ =~= seq!['_', 'C']);
            }
            assert(out@ =~= before + char_code(c));
        } else {
            out.append(path.substring_char(i, i + 1));
            assert(path@.subrange(i as int, i + 1) =~= seq![c]);
            assert(out@ =~= before + char_code(c));
        }
        assert(out@ =~= escaped_name(path@.subrange(0, i + 1)));
        i += 1;
    }
    assert(path@.subrange(0, n as int) =~= path@);
    out
}

/// The file that the replacement for `path` is materialized into.
pub open spec fn dest_path(temp_dir: Seq<char>, path: Seq<char>) -> Seq<char> {
    temp_dir + "/asset-"@ + escaped_name(path)
}

/// Distinct paths are materialized into distinct files.
pub proof fn lemma_dest_injective(temp_dir: Seq<char>, p: Seq<char>, q: Seq<char>)
    requires
        dest_path(temp_dir, p) == dest_path(temp_dir, q),
    ensures
        p == q,
{
    let pre = temp_dir + "/asset-"@;
    assert(dest_path(temp_dir, p) =~= pre + escaped_name(p));
    assert(dest_path(temp_dir, q) =~= pre + escaped_name(q));
    assert(escaped_name(p) =~= dest_path(temp_dir, p).subrange(pre.len() as int, dest_path(temp_dir, p).len() as int));
    assert(escaped_name(q) =~= dest_path(temp_dir, q).subrange(pre.len() as int, dest_path(temp_dir, q).len() as int));
    lemma_escape_injective(p, q);
}

/// Errors of the registry.
#[derive(Clone, Copy, Debug, PartialEq, Eq, Structural)]
pub enum ReplacerError {
    /// The producer of this registration failed.
    MaterializationFailed,
    /// Purge of a registration that has not been materialized.
    NotPurgeable,
    /// A resolution is still running for this path, or a completion was
    /// reported for a path that was not being materialized.
    ConsistencyViolation,
}

/// The state of one registration.
pub enum Registration {
    Pending(u64),
    Materializing(String),
    Complete(String),
    Failed,
}

pub ghost enum RegState {
    Pending(u64),
    Materializing(Seq<char>),
    Complete(Seq<char>),
    Failed,
}

impl View for Registration {
    type V = RegState;

    open spec fn view(&self) -> RegState {
        match self {
            Registration::Pending(id) => RegState::Pending(*id),
            Registration::Materializing(d) => RegState::Materializing(d@),
            Registration::Complete(d) => RegState::Complete(d@),
            Registration::Failed => RegState::Failed,
        }
    }
}

/// What a call to `get` tells its caller to do.
pub enum Resolution {
    /// No registration: open the requested path unchanged.
    Unregistered,
    /// Already materialized: open this file instead.
    Cached(String),
    /// Run `producer` into the file `dest`, then report through `complete`.
    Materialize { producer: u64, dest: String },
}

pub ghost enum ResolutionView {
    Unregistered,
    Cached(Seq<char>),
    Materialize(u64, Seq<char>),
}

impl View for Resolution {
    type V = ResolutionView;

    open spec fn view(&self) -> ResolutionView {
        match self {
            Resolution::Unregistered => ResolutionView::Unregistered,
            Resolution::Cached(p) => ResolutionView::Cached(p@),
            Resolution::Materialize { producer, dest } => ResolutionView::Materialize(*producer, dest@),
        }
    }
}

pub ghost struct ReplacerModel {
    pub temp_dir: Seq<char>,
    pub regs: Map<Seq<char>, RegState>,
}

/// Result of `get` on a registry in state `m`.
pub open spec fn get_result(m: ReplacerModel, path: Seq<char>) -> Result<ResolutionView, ReplacerError> {
    if !m.regs.contains_key(path) {
        Ok(ResolutionView::Unregistered)
    } else {
        match m.regs[path] {
            RegState::Pending(id) => Ok(ResolutionView::Materialize(id, dest_path(m.temp_dir, path))),
            RegState::Complete(d) => Ok(ResolutionView::Cached(d)),
            RegState::Materializing(_) => Err(ReplacerError::ConsistencyViolation),
            RegState::Failed => Err(ReplacerError::MaterializationFailed),
        }
    }
}

/// State of the registry after `get`.
pub open spec fn after_get(m: ReplacerModel, path: Seq<char>) -> ReplacerModel {
    if m.regs.contains_key(path) && m.regs[path] is Pending {
        ReplacerModel {
            regs: m.regs.insert(path, RegState::Materializing(dest_path(m.temp_dir, path))),
            ..m
        }
    } else {
        m
    }
}

/// Result of `complete`.
pub open spec fn complete_result(m: ReplacerModel, path: Seq<char>, produced: bool) -> Result<Seq<char>, ReplacerError> {
    if m.regs.contains_key(path) && m.regs[path] is Materializing {
        if produced {
            Ok(m.regs[path]->Materializing_0)
        } else {
            Err(ReplacerError::MaterializationFailed)
        }
    } else {
        Err(ReplacerError::ConsistencyViolation)
    }
}

/// State of the registry after `complete`.
pub open spec fn after_complete(m: ReplacerModel, path: Seq<char>, produced: bool) -> ReplacerModel {
    if m.regs.contains_key(path) && m.regs[path] is Materializing {
        let next = if produced {
            RegState::Complete(m.regs[path]->Materializing_0)
        } else {
            RegState::Failed
        };
        ReplacerModel { regs: m.regs.insert(path, next), ..m }
    } else {
        m
    }
}

/// Result of `purge`.
pub open spec fn purge_result(m: ReplacerModel, path: Seq<char>) -> Result<Option<Seq<char>>, ReplacerError> {
    if !m.regs.contains_key(path) {
        Ok(None)
    } else {
        match m.regs[path] {
            RegState::Complete(d) => Ok(Some(d)),
            _ => Err(ReplacerError::NotPurgeable),
        }
    }
}

/// State of the registry after `purge`.
pub open spec fn after_purge(m: ReplacerModel, path: Seq<char>) -> ReplacerModel {
    if m.regs.contains_key(path) && m.regs[path] is Complete {
        ReplacerModel { regs: m.regs.remove(path), ..m }
    } else {
        m
    }
}

/// Resolving a pending registration twice runs its producer once: the first
/// `get` hands the producer out with its destination, and once that
/// materialization is reported done, a second `get` returns the same file
/// and hands nothing out.
pub proof fn lemma_resolve_idempotent(m: ReplacerModel, path: Seq<char>, producer: u64)
    requires
        m.regs.contains_key(path),
        m.regs[path] == RegState::Pending(producer),
    ensures
        ({
            let dest = dest_path(m.temp_dir, path);
            let m1 = after_get(m, path);
            let m2 = after_complete(m1, path, true);
            &&& get_result(m, path) == Ok::<ResolutionView, ReplacerError>(ResolutionView::Materialize(producer, dest))
            &&& complete_result(m1, path, true) == Ok::<Seq<char>, ReplacerError>(dest)
            &&& get_result(m2, path) == Ok::<ResolutionView, ReplacerError>(ResolutionView::Cached(dest))
            &&& after_get(m2, path) == m2
            &&& get_result(after_get(m2, path), path) == Ok::<ResolutionView, ReplacerError>(ResolutionView::Cached(dest))
        }),
{
}

/// A path with no registration resolves to "no substitution" and leaves the
/// registry as it was.
pub proof fn lemma_resolve_absent(m: ReplacerModel, path: Seq<char>)
    requires
        !m.regs.contains_key(path),
    ensures
        get_result(m, path) == Ok::<ResolutionView, ReplacerError>(ResolutionView::Unregistered),
        after_get(m, path) == m,
{
}

/// Purging a materialized registration yields its file for deletion, and a
/// later `get` of that path never returns the deleted file: the path is then
/// unregistered. A registration that was not materialized cannot be purged.
pub proof fn lemma_purge_safety(m: ReplacerModel, path: Seq<char>)
    requires
        m.regs.contains_key(path),
    ensures
        m.regs[path] is Complete ==> {
            &&& purge_result(m, path) == Ok::<Option<Seq<char>>, ReplacerError>(Some(m.regs[path]->Complete_0))
            &&& get_result(after_purge(m, path), path) == Ok::<ResolutionView, ReplacerError>(ResolutionView::Unregistered)
        },
        !(m.regs[path] is Complete) ==> {
            &&& purge_result(m, path) == Err::<Option<Seq<char>>, ReplacerError>(ReplacerError::NotPurgeable)
            &&& after_purge(m, path) == m
        },
{
}

/// The registry of replacements.
pub struct Replacer {
    temp_dir: String,
    regs: StringHashMap<Registration>,
}

impl View for Replacer {
    type V = ReplacerModel;

    closed spec fn view(&self) -> ReplacerModel {
        ReplacerModel {
            temp_dir: self.temp_dir@,
            regs: self.regs@.map_values(|r: Registration| r@),
        }
    }
}

impl Replacer {
    /// An empty registry whose files go into `temp_dir`.
    pub fn new(temp_dir: String) -> (r: Replacer)
        ensures
            r@.temp_dir == temp_dir@,
            r@.regs == Map::<Seq<char>, RegState>::empty(),
    {
        let r = Replacer { temp_dir, regs: StringHashMap::new() };
        assert(r@.regs =~= Map::<Seq<char>, RegState>::empty());
        r
    }

    /// Registers `producer` for `path`, replacing any earlier registration.
    pub fn add(&mut self, path: &str, producer: u64)
        ensures
            final(self)@ == (ReplacerModel {
                regs: old(self)@.regs.insert(path@, RegState::Pending(producer)),
                ..old(self)@
            }),
    {
        self.regs.insert(path.to_owned(), Registration::Pending(producer));
        assert(self@.regs =~= old(self)@.regs.insert(path@, RegState::Pending(producer)));
    }

    /// Drops every registration.
    pub fn clear(&mut self)
        ensures
            final(self)@ == (ReplacerModel { regs: Map::<Seq<char>, RegState>::empty(), ..old(self)@ }),
    {
        self.regs.clear();
        assert(self@.regs =~= Map::<Seq<char>, RegState>::empty());
    }

    /// The file that the replacement for `path` goes into.
    pub fn dest_for(&self, path: &str) -> (r: String)
        ensures
            r@ == dest_path(self@.temp_dir, path@),
    {
        let mut d = self.temp_dir.clone();
        d.append("/asset-");
        let name = escape_name(path);
        d.append(name.as_str());
        d
    }

    /// Looks `path` up. A pending producer is handed out at most once: the
    /// registration then waits for `complete`.
    pub fn get(&mut self, path: &str) -> (r: Result<Resolution, ReplacerError>)
        ensures
            final(self)@ == after_get(old(self)@, path@),
            match r {
                Ok(res) => get_result(old(self)@, path@) == Ok::<ResolutionView, ReplacerError>(res@),
                Err(e) => get_result(old(self)@, path@) == Err::<ResolutionView, ReplacerError>(e),
            },
    {
        let state = match self.regs.get(path) {
            None => {
                return Ok(Resolution::Unregistered);
            },
            Some(Registration::Complete(d)) => {
                return Ok(Resolution::Cached(d.clone()));
            },
            Some(Registration::Materializing(_)) => {
                return Err(ReplacerError::ConsistencyViolation);
            },
            Some(Registration::Failed) => {
                return Err(ReplacerError::MaterializationFailed);
            },
            Some(Registration::Pending(id)) => *id,
        };
        let dest = self.dest_for(path);
        self.regs.insert(path.to_owned(), Registration::Materializing(dest.clone()));
        assert(self@.regs =~= after_get(old(self)@, path@).regs);
        Ok(Resolution::Materialize { producer: state, dest })
    }

    /// Records the outcome of a materialization handed out by `get`.
    pub fn complete(&mut self, path: &str, produced: bool) -> (r: Result<String, ReplacerError>)
        ensures
            final(self)@ == after_complete(old(self)@, path@, produced),
            match r {
                Ok(d) => complete_result(old(self)@, path@, produced) == Ok::<Seq<char>, ReplacerError>(d@),
                Err(e) => complete_result(old(self)@, path@, produced) == Err::<Seq<char>, ReplacerError>(e),
            },
    {
        let dest = match self.regs.get(path) {
            Some(Registration::Materializing(d)) => d.clone(),
            _ => {
                return Err(ReplacerError::ConsistencyViolation);
            },
        };
        if produced {
            self.regs.insert(path.to_owned(), Registration::Complete(dest.clone()));
            assert(self@.regs =~= after_complete(old(self)@, path@, produced).regs);
            Ok(dest)
        } else {
            self.regs.insert(path.to_owned(), Registration::Failed);
            assert(self@.regs =~= after_complete(old(self)@, path@, produced).regs);
            Err(ReplacerError::MaterializationFailed)
        }
    }

    /// Drops a materialized registration, returning the file to delete.
    pub fn purge(&mut self, path: &str) -> (r: Result<Option<String>, ReplacerError>)
        ensures
            final(self)@ == after_purge(old(self)@, path@),
            match r {
                Ok(Some(d)) => purge_result(old(self)@, path@) == Ok::<Option<Seq<char>>, ReplacerError>(Some(d@)),
                Ok(None) => purge_result(old(self)@, path@) == Ok::<Option<Seq<char>>, ReplacerError>(None),
                Err(e) => purge_result(old(self)@, path@) == Err::<Option<Seq<char>>, ReplacerError>(e),
            },
    {
        let dest = match self.regs.get(path) {
            None => {
                return Ok(None);
            },
            Some(Registration::Complete(d)) => d.clone(),
            Some(_) => {
                return Err(ReplacerError::NotPurgeable);
            },
        };
        self.regs.remove(path);
        assert(self@.regs =~= after_purge(old(self)@, path@).regs);
        Ok(Some(dest))
    }
}

} // verus!
