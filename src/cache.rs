use vstd::prelude::*;

use crate::path::{canonical_path, canonicalize};
use crate::path_map::PathMap;
use crate::types::SendResult;

verus! {

/// The per-path cache of live publish handles. At most one handle is cached
/// for a path; a path without one gets a fresh handle on its next write.
pub struct SubscriptionCache<H> {
    handles: PathMap<H>,
}

impl<H> View for SubscriptionCache<H> {
    type V = Map<Seq<char>, H>;

    closed spec fn view(&self) -> Map<Seq<char>, H> {
        self.handles@
    }
}

impl<H> SubscriptionCache<H> {
    pub closed spec fn wf(&self) -> bool {
        self.handles.wf()
    }

    pub fn new() -> (r: Self)
        ensures
            r.wf(),
            r@ == Map::<Seq<char>, H>::empty(),
    {
        SubscriptionCache { handles: PathMap::new() }
    }

    /// Whether a handle is cached for `path`.
    pub fn is_cached(&self, path: &String) -> (r: bool)
        requires
            self.wf(),
        ensures
            r == self@.contains_key(path@),
    {
        self.handles.contains_key(path)
    }

    /// The handle cached for `path`, if any.
    pub fn get(&self, path: &String) -> (r: Option<&H>)
        requires
            self.wf(),
        ensures
            match r {
                Some(h) => self@.contains_key(path@) && *h == self@[path@],
                None => !self@.contains_key(path@),
            },
    {
        self.handles.get(path)
    }

    /// Makes sure a handle is cached for `path`, calling `open` on the path
    /// for one when none is. Returns whether `open` was called. `open` may
    /// only be asked for paths without a cached handle.
    pub fn get_or_open<F: FnOnce(&String) -> H>(&mut self, path: &String, open: F) -> (created: bool)
        requires
            old(self).wf(),
            forall|p: &String| !old(self)@.contains_key(p@) ==> #[trigger] open.requires((p,)),
        ensures
            final(self).wf(),
            created == !old(self)@.contains_key(path@),
            !created ==> final(self)@ == old(self)@,
            created ==> exists|h: H|
                open.ensures((path,), h) && final(self)@ == #[trigger] old(self)@.insert(path@, h),
            final(self)@.contains_key(path@),
    {
        if self.handles.contains_key(path) {
            false
        } else {
            let h = open(path);
            self.handles.insert(path.clone(), h);
            true
        }
    }

    /// Hands the handle for `path` to `write`, opening and caching one first
    /// where none is cached. Returns what `write` returned, and whether a
    /// handle was opened.
    pub fn dispatch<R, F: FnOnce(&String) -> H, W: FnOnce(&H) -> R>(
        &mut self,
        path: &String,
        open: F,
        write: W,
    ) -> (r: (R, bool))
        requires
            old(self).wf(),
            forall|p: &String| !old(self)@.contains_key(p@) ==> #[trigger] open.requires((p,)),
            forall|h: &H| #[trigger] write.requires((h,)),
        ensures
            final(self).wf(),
            r.1 == !old(self)@.contains_key(path@),
            !r.1 ==> final(self)@ == old(self)@,
            r.1 ==> exists|h: H|
                open.ensures((path,), h) && final(self)@ == #[trigger] old(self)@.insert(path@, h),
            final(self)@.contains_key(path@),
            write.ensures((&final(self)@[path@],), r.0),
    {
        let created = self.get_or_open(path, open);
        let h = self.handles.get(path).unwrap();
        (write(h), created)
    }

    /// Drops the handle cached for `path`; its next write opens a new one.
    pub fn invalidate(&mut self, path: &String)
        requires
            old(self).wf(),
        ensures
            final(self).wf(),
            final(self)@ == old(self)@.remove(path@),
    {
        self.handles.remove(path);
    }

    /// Drops every cached handle.
    pub fn invalidate_all(&mut self)
        requires
            old(self).wf(),
        ensures
            final(self).wf(),
            final(self)@ == Map::<Seq<char>, H>::empty(),
    {
        self.handles.clear();
    }

    /// Forces a reconnection of `path` on its next write. Always reports `Sent`.
    pub fn refresh_path(&mut self, path: &str) -> (r: SendResult)
        requires
            old(self).wf(),
        ensures
            final(self).wf(),
            final(self)@ == old(self)@.remove(canonical_path(path@)),
            r == SendResult::Sent,
    {
        let p = canonicalize(path);
        self.invalidate(&p);
        SendResult::Sent
    }

    /// Forces a reconnection of every path on its next write. Always reports
    /// `Sent`.
    pub fn refresh_all(&mut self) -> (r: SendResult)
        requires
            old(self).wf(),
        ensures
            final(self).wf(),
            final(self)@ == Map::<Seq<char>, H>::empty(),
            r == SendResult::Sent,
    {
        self.invalidate_all();
        SendResult::Sent
    }
}

} // verus!
