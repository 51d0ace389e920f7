//! The dispatch loop: one synchronous update-diff-patch cycle per native
//! event, driven by the backend's event loop on a single thread.

use vstd::prelude::*;

use crate::diff::{diff, patches_view, spec_diff, Patch};
use crate::native::{apply, render, sapply_all, NativeNode};
use crate::node::Node;

verus! {

/// What the embedding application supplies: a message-driven state machine.
/// `update` is where every side effect belongs; `view` must be a pure
/// function of the state.
pub trait Component<MSG>: Sized {
    fn update(&mut self, msg: MSG);

    fn view(&self) -> Node<MSG>;
}

/// One running application instance: its state, the tree of the last render
/// (the diff baseline), and the live native tree.  Each is owned here and
/// nowhere else; cycles run to completion one at a time.
pub struct Program<APP, MSG> {
    pub app: APP,
    pub current: Node<MSG>,
    pub native: NativeNode<MSG>,
}

impl<APP, MSG: Clone> Program<APP, MSG> where APP: Component<MSG> {
    /// Mount an application: render its first view as the live native tree.
    pub fn new(app: APP) -> (s: Self)
        ensures
            s.native@ == s.current@,
    {
        let current = app.view();
        let native = render(&current);
        Program { app, current, native }
    }

    /// One full cycle: feed the message to the application, render the new
    /// view, diff it against the stored baseline, replay the edit script
    /// against the live native tree, and keep the new view as the next
    /// baseline.  Returns the script it applied.  On a structural mismatch
    /// the cycle is aborted: the baseline stays, the error names the first
    /// patch that did not fit, and the native tree is left as the abandoned
    /// cycle left it.
    pub fn dispatch(&mut self, msg: MSG) -> (r: Result<Vec<Patch<MSG>>, usize>)
        ensures
            match r {
                Ok(script) => {
                    &&& patches_view(script@) == spec_diff(
                        old(self).current@,
                        final(self).current@,
                        Seq::<usize>::empty(),
                    )
                    &&& sapply_all(old(self).native@, patches_view(script@), 0) == Some(
                        final(self).native@,
                    )
                },
                Err(_) => final(self).current@ == old(self).current@,
            },
    {
        self.app.update(msg);
        let new_view = self.app.view();
        let script = diff(&self.current, &new_view);
        let mut taken = NativeNode::Text(String::new());
        core::mem::swap(&mut taken, &mut self.native);
        match apply(taken, &script) {
            Ok(t2) => {
                self.native = t2;
                self.current = new_view;
                Ok(script)
            },
            Err(e) => {
                self.native = e.tree;
                Err(e.index)
            },
        }
    }
}

} // verus!
