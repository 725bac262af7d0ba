use vstd::prelude::*;
use crate::node::{Node, tree_size};
use crate::patch::{Patch, patches_view};
use crate::diff::{diff, diff_node};

verus! {

/// Where the first view goes at its mount point.
#[derive(Debug, PartialEq, Eq, Clone, Copy)]
pub enum MountMode {
    /// Appended as the mount point's last child.
    Append,
    /// Put in the mount point's place.
    Replace,
}

/// The update loop's state: the view that the live tree mirrors, and how it
/// was mounted. The host runs the component, performs the mount and applies
/// the patches that each update hands back.
pub struct Program {
    pub current_view: Node,
    pub mount: Option<MountMode>,
}

impl Program {
    /// A program holding its initial view, not mounted yet.
    fn new(view: Node) -> (r: Program)
        ensures
            r.current_view@ == view@,
            r.mount is None,
    {
        Program { current_view: view, mount: None }
    }

    /// A program whose initial view replaces the mount point.
    pub fn new_replace_mount(view: Node) -> (r: Program)
        ensures
            r.current_view@ == view@,
            r.mount == Some(MountMode::Replace),
    {
        let mut program = Program::new(view);
        program.start_replace_mount();
        program
    }

    /// A program whose initial view is appended to the mount point.
    pub fn new_append_to_mount(view: Node) -> (r: Program)
        ensures
            r.current_view@ == view@,
            r.mount == Some(MountMode::Append),
    {
        let mut program = Program::new(view);
        program.start_append_to_mount();
        program
    }

    /// A program whose initial view is appended to the document body.
    pub fn mount_to_body(view: Node) -> (r: Program)
        ensures
            r.current_view@ == view@,
            r.mount == Some(MountMode::Append),
    {
        Program::new_append_to_mount(view)
    }

    fn start_append_to_mount(&mut self)
        ensures
            final(self).current_view@ == old(self).current_view@,
            final(self).mount == Some(MountMode::Append),
    {
        self.mount = Some(MountMode::Append);
    }

    fn start_replace_mount(&mut self)
        ensures
            final(self).current_view@ == old(self).current_view@,
            final(self).mount == Some(MountMode::Replace),
    {
        self.mount = Some(MountMode::Replace);
    }

    /// One update: the component produced `view` from its new state. Returns
    /// the patches that bring the live tree from the current view to `view`,
    /// which becomes the current view; the mount is kept.
    pub fn dispatch_inner(&mut self, view: Node) -> (r: Vec<Patch>)
        requires
            tree_size(old(self).current_view@) <= usize::MAX,
        ensures
            patches_view(r@) == diff_node(old(self).current_view@, view@, 0),
            final(self).current_view@ == view@,
            final(self).mount == old(self).mount,
    {
        let patches = diff(&self.current_view, &view);
        self.current_view = view;
        patches
    }
}

} // verus!
