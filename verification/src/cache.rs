//! Caches that look a selector or a class up once and keep it.

use vstd::prelude::*;
use crate::runtime::{no_nul, Class, Runtime, Sel};

verus! {

/// Holds a selector, registered the first time it is asked for.
pub struct CachedSel {
    sel: Option<Sel>,
}

impl CachedSel {
    /// The name of the selector held, if one is.
    pub closed spec fn cached(&self) -> Option<Seq<char>> {
        match self.sel {
            Some(s) => Some(s@),
            None => None,
        }
    }

    /// An empty cache.
    pub fn new() -> (c: CachedSel)
        ensures
            c.cached() is None,
    {
        CachedSel { sel: None }
    }

    /// The selector held; if none is yet, registers one named `name` and
    /// keeps it.
    pub fn get(&mut self, name: &str) -> (s: Sel)
        requires
            no_nul(name@),
        ensures
            match old(self).cached() {
                Some(n) => s@ == n && final(self).cached() == old(self).cached(),
                None => s@ == name@ && final(self).cached() == Some(name@),
            },
    {
        match &self.sel {
            Some(s) => s.duplicate(),
            None => {
                let s = Sel::register(name);
                self.sel = Some(s.duplicate());
                s
            },
        }
    }
}

/// Holds a class, looked up by name until it is found.
pub struct CachedClass {
    cls: Option<Class>,
}

impl CachedClass {
    /// The class held, if one is.
    pub closed spec fn cached(&self) -> Option<Class> {
        self.cls
    }

    /// An empty cache.
    pub fn new() -> (c: CachedClass)
        ensures
            c.cached() is None,
    {
        CachedClass { cls: None }
    }

    /// The class held; if none is yet, looks up the registered class named
    /// `name` and keeps it when there is one.
    pub fn get<I>(&mut self, rt: &Runtime<I>, name: &str) -> (r: Option<Class>)
        requires
            rt@.wf(),
            no_nul(name@),
        ensures
            match old(self).cached() {
                Some(c) => r == Some(c) && final(self).cached() == old(self).cached(),
                None => {
                    &&& final(self).cached() == r
                    &&& match r {
                        Some(c) => rt@.is_class_named(c.idx as int, name@),
                        None => forall|c: int| !rt@.is_class_named(c, name@),
                    }
                },
            },
    {
        match self.cls {
            Some(c) => Some(c),
            None => {
                let r = Class::get(rt, name);
                self.cls = r;
                r
            },
        }
    }
}

} // verus!
