//! Decisions of the interception layer: the reentrancy guard around a hook,
//! and what an intercepted open does with the path it was given.

use vstd::prelude::*;
use crate::path::{cleaned, canonicalize};
use crate::replacer::{
    Replacer, ReplacerError, Resolution, ResolutionView, get_result, after_get,
    complete_result, after_complete,
};

verus! {

/// The share flag that lets a file be deleted while it is open.
pub const FILE_SHARE_DELETE: u32 = 4;

/// A scoped disable of one hook. It remembers whether the hook was enabled
/// when it was taken; the hook is disabled for its scope and, on release,
/// enabled again only if it was enabled before.
pub struct HookGuard {
    enabled: bool,
}

/// State of a hook after releasing a guard that found it `was_enabled`.
pub open spec fn state_after_release(now: bool, was_enabled: bool) -> bool {
    now || was_enabled
}

impl HookGuard {
    pub closed spec fn was_enabled(&self) -> bool {
        self.enabled
    }

    /// Takes a guard on a hook whose current state is `hook_enabled`.
    pub fn new(hook_enabled: bool) -> (r: HookGuard)
        ensures
            r.was_enabled() == hook_enabled,
    {
        HookGuard { enabled: hook_enabled }
    }

    /// Whether taking this guard must disable the hook.
    pub fn must_disable(&self) -> (r: bool)
        ensures
            r == self.was_enabled(),
    {
        self.enabled
    }

    /// Whether releasing this guard must enable the hook again.
    pub fn must_reenable(&self) -> (r: bool)
        ensures
            r == self.was_enabled(),
    {
        self.enabled
    }

    /// Takes a guard on `hook`, disabling it.
    pub fn acquire(hook: &mut bool) -> (r: HookGuard)
        ensures
            r.was_enabled() == *old(hook),
            *final(hook) == false,
    {
        let g = HookGuard::new(*hook);
        *hook = false;
        g
    }

    /// Releases this guard on `hook`.
    pub fn release(self, hook: &mut bool)
        ensures
            *final(hook) == state_after_release(*old(hook), self.was_enabled()),
    {
        if self.enabled {
            *hook = true;
        }
    }
}

/// Two guards nested on one hook: while the outer one is live, releasing the
/// inner one leaves the hook disabled, and releasing the outer one restores
/// the state the hook had before either was taken.
pub proof fn lemma_guard_nesting(enabled: bool)
    ensures
        ({
            let outer = enabled;
            let h1 = false;
            let inner = h1;
            let h2 = false;
            let h3 = state_after_release(h2, inner);
            let h4 = state_after_release(h3, outer);
            &&& !h1 && !h2 && !h3
            &&& h4 == enabled
        }),
{
}

/// What an intercepted open does.
pub enum OpenAction {
    /// Open `path`, the canonical form of the requested one, unchanged.
    PassThrough { path: String, share_mode: u32 },
    /// Open the replacement `path` instead, with deletion allowed; the handle
    /// is recorded against `key`.
    Substitute { key: String, path: String, share_mode: u32 },
    /// Run `producer` into `dest`, report through `finish_open`, then open.
    Materialize { key: String, producer: u64, dest: String, share_mode: u32 },
}

pub ghost enum OpenActionView {
    PassThrough(Seq<char>, u32),
    Substitute(Seq<char>, Seq<char>, u32),
    Materialize(Seq<char>, u64, Seq<char>, u32),
}

impl View for OpenAction {
    type V = OpenActionView;

    open spec fn view(&self) -> OpenActionView {
        match self {
            OpenAction::PassThrough { path, share_mode } => OpenActionView::PassThrough(path@, *share_mode),
            OpenAction::Substitute { key, path, share_mode } => OpenActionView::Substitute(key@, path@, *share_mode),
            OpenAction::Materialize { key, producer, dest, share_mode } =>
                OpenActionView::Materialize(key@, *producer, dest@, *share_mode),
        }
    }
}

/// The action for a request whose canonical key is `key`, given what the
/// registry resolved it to: the requested path is opened as asked, a
/// replacement is opened with deletion allowed.
pub open spec fn planned(key: Seq<char>, res: ResolutionView, share: u32) -> OpenActionView {
    match res {
        ResolutionView::Unregistered => OpenActionView::PassThrough(key, share),
        ResolutionView::Cached(p) => OpenActionView::Substitute(key, p, share | FILE_SHARE_DELETE),
        ResolutionView::Materialize(id, d) => OpenActionView::Materialize(key, id, d, share),
    }
}

/// Decides an intercepted open of `raw_path`: the path is canonicalized
/// before the registry is consulted. A failed resolution is returned as an
/// error, never turned into an open of the unmodified file.
pub fn plan_open(replacer: &mut Replacer, raw_path: &str, share_mode: u32) -> (r: Result<OpenAction, ReplacerError>)
    ensures
        final(replacer)@ == after_get(old(replacer)@, cleaned(raw_path@)),
        match get_result(old(replacer)@, cleaned(raw_path@)) {
            Ok(res) => r matches Ok(a) && a@ == planned(cleaned(raw_path@), res, share_mode),
            Err(e) => r == Err::<OpenAction, ReplacerError>(e),
        },
{
    let key = canonicalize(raw_path);
    match replacer.get(key.as_str()) {
        Ok(Resolution::Unregistered) => Ok(OpenAction::PassThrough { path: key, share_mode }),
        Ok(Resolution::Cached(p)) => Ok(OpenAction::Substitute { key, path: p, share_mode: share_mode | FILE_SHARE_DELETE }),
        Ok(Resolution::Materialize { producer, dest }) => Ok(OpenAction::Materialize { key, producer, dest, share_mode }),
        Err(e) => Err(e),
    }
}

/// Completes an open that had to materialize its replacement first:
/// records whether the producer succeeded and, if it did, substitutes the
/// new file.
pub fn finish_open(replacer: &mut Replacer, key: &str, produced: bool, share_mode: u32) -> (r: Result<OpenAction, ReplacerError>)
    ensures
        final(replacer)@ == after_complete(old(replacer)@, key@, produced),
        match complete_result(old(replacer)@, key@, produced) {
            Ok(d) => r matches Ok(a) && a@ == OpenActionView::Substitute(key@, d, share_mode | FILE_SHARE_DELETE),
            Err(e) => r == Err::<OpenAction, ReplacerError>(e),
        },
{
    match replacer.complete(key, produced) {
        Ok(d) => Ok(OpenAction::Substitute { key: key.to_owned(), path: d, share_mode: share_mode | FILE_SHARE_DELETE }),
        Err(e) => Err(e),
    }
}

/// The path that the handle of a successful open is recorded against: only
/// an open of a replacement is tracked, so that the replacement can be
/// purged once its last handle is closed.
pub fn handle_key(a: &OpenAction) -> (r: Option<String>)
    ensures
        a@ matches OpenActionView::Substitute(key, _, _) ==> (r matches Some(k) && k@ == key),
        !(a@ is Substitute) ==> r is None,
{
    match a {
        OpenAction::Substitute { key, .. } => Some(key.clone()),
        _ => None,
    }
}

} // verus!
