//! Mounting one launcher under a path prefix beside another.
use vstd::prelude::*;

use crate::method::{Method, MethodView};
use crate::paths::same_text;
use crate::routing::launcher::{Launcher, Target, TargetView};

verus! {

/// Two launchers: one asked about every request, and one asked, where the
/// first does not answer, about requests under a prefix, with the prefix
/// removed from their path.
#[derive(Debug)]
pub struct Mounter<S, T> {
    without_prefix: S,
    prefix: String,
    with_prefix: T,
}

impl<S, T> Mounter<S, T> {
    /// The launcher asked first.
    pub closed spec fn base(&self) -> S {
        self.without_prefix
    }

    /// The path segment under which the second launcher is mounted.
    pub closed spec fn prefix(&self) -> Seq<char> {
        self.prefix@
    }

    /// The launcher mounted under the prefix.
    pub closed spec fn mounted(&self) -> T {
        self.with_prefix
    }

    pub fn new(without_prefix: S, prefix: &str, with_prefix: T) -> (m: Mounter<S, T>)
        ensures
            m.base() == without_prefix,
            m.prefix() == prefix@,
            m.mounted() == with_prefix,
    {
        Mounter { without_prefix, prefix: prefix.to_owned(), with_prefix }
    }
}

impl<S: Clone, T: Clone> Clone for Mounter<S, T> {
    /// A copy with the same prefix and a clone of each launcher.
    fn clone(&self) -> (r: Mounter<S, T>)
        ensures
            r.prefix() == self.prefix(),
            cloned::<S>(self.base(), r.base()),
            cloned::<T>(self.mounted(), r.mounted()),
    {
        Mounter {
            without_prefix: self.without_prefix.clone(),
            prefix: self.prefix.clone(),
            with_prefix: self.with_prefix.clone(),
        }
    }
}

/// What a mounter decides: the base launcher's answer where it has one;
/// otherwise, for a path whose first segment is the prefix, the mounted
/// launcher's answer for the rest of the path.
pub open spec fn mounted_launch<S: Launcher, T: Launcher>(
    m: Mounter<S, T>,
    method: MethodView,
    paths: Seq<Seq<char>>,
) -> Option<TargetView> {
    match m.base().launched(method, paths) {
        Some(t) => Some(TargetView::Base(Box::new(t))),
        None => if paths.len() > 0 && paths[0] == m.prefix() {
            match m.mounted().launched(method, paths.drop_first()) {
                Some(t) => Some(TargetView::Mounted(Box::new(t))),
                None => None,
            }
        } else {
            None
        },
    }
}

impl<S: Launcher, T: Launcher> Launcher for Mounter<S, T> {
    open spec fn launched(&self, method: MethodView, paths: Seq<Seq<char>>) -> Option<TargetView> {
        mounted_launch(*self, method, paths)
    }

    fn launch(&self, method: &Method, paths: &[&str]) -> (r: Option<Target>) {
        match self.without_prefix.launch(method, paths) {
            Some(t) => Some(Target::Base(Box::new(t))),
            None => {
                if paths.len() > 0 && same_text(self.prefix.as_str(), paths[0]) {
                    let rest = &paths[1..paths.len()];
                    assert(rest.deep_view() =~= paths.deep_view().drop_first());
                    match self.with_prefix.launch(method, rest) {
                        Some(t) => Some(Target::Mounted(Box::new(t))),
                        None => None,
                    }
                } else {
                    None
                }
            },
        }
    }
}

/// A mounter asks its base launcher first and answers as it does where it
/// answers. Otherwise a request whose first path segment is the prefix goes
/// to the mounted launcher with that segment removed, and the mounter answers
/// as that launcher does; any other request it does not answer.
pub proof fn law_mount_base_first_then_prefix<S: Launcher, T: Launcher>(
    m: Mounter<S, T>,
    method: MethodView,
    paths: Seq<Seq<char>>,
)
    ensures
        m.base().launched(method, paths) matches Some(t) ==> m.launched(method, paths) == Some(
            TargetView::Base(Box::new(t)),
        ),
        m.base().launched(method, paths) is None && paths.len() > 0 && paths[0] == m.prefix()
            ==> m.launched(method, paths) == match m.mounted().launched(method, paths.drop_first()) {
            Some(t) => Some(TargetView::Mounted(Box::new(t))),
            None => None,
        },
        m.base().launched(method, paths) is None && !(paths.len() > 0 && paths[0] == m.prefix())
            ==> m.launched(method, paths) is None,
{
}

} // verus!
