//! A stack of top-level screens, switched through a closed set of
//! transitions. The stack never becomes empty through [`SceneStack::switch`]
//! alone: a pop removes the top scene and hands it back.

use vstd::prelude::*;

verus! {

/// What the active scene asks the stack to do next.
pub enum Transition<S> {
    Stay,
    Push(S),
    Pop,
    Replace(S),
}

/// A non-empty-by-construction stack of scenes; the last element is the
/// active one.
pub struct SceneStack<S> {
    pub scenes: Vec<S>,
}

impl<S> SceneStack<S> {
    /// A stack holding exactly the given scene.
    pub fn new(scene: S) -> (s: SceneStack<S>)
        ensures
            s.scenes@ == Seq::<S>::empty().push(scene),
    {
        let mut scenes = Vec::new();
        scenes.push(scene);
        proof {
            assert(scenes@ =~= Seq::<S>::empty().push(scene));
        }
        SceneStack { scenes }
    }

    /// Pushes a scene on top.
    pub fn push(&mut self, scene: S)
        ensures
            final(self).scenes@ == old(self).scenes@.push(scene),
    {
        self.scenes.push(scene);
    }

    /// Removes and returns the top scene; the stack must not be empty.
    pub fn pop(&mut self) -> (top: S)
        requires
            old(self).scenes@.len() > 0,
        ensures
            final(self).scenes@ == old(self).scenes@.drop_last(),
            top == old(self).scenes@.last(),
    {
        let top = self.scenes.pop();
        match top {
            Some(s) => s,
            None => unreached(),
        }
    }

    /// Applies a transition: `Stay` keeps the stack, `Push` adds a scene,
    /// `Pop` removes the top scene and returns it, and `Replace` swaps the
    /// top scene, returning the old one.
    pub fn switch(&mut self, t: Transition<S>) -> (prev: Option<S>)
        requires
            old(self).scenes@.len() > 0,
        ensures
            match t {
                Transition::Stay => final(self).scenes@ == old(self).scenes@ && prev is None,
                Transition::Push(s) => final(self).scenes@ == old(self).scenes@.push(s) && prev
                    is None,
                Transition::Pop => final(self).scenes@ == old(self).scenes@.drop_last() && prev
                    == Some(old(self).scenes@.last()),
                Transition::Replace(s) => final(self).scenes@ == old(
                    self,
                ).scenes@.drop_last().push(s) && prev == Some(old(self).scenes@.last()),
            },
    {
        match t {
            Transition::Stay => None,
            Transition::Pop => Some(self.pop()),
            Transition::Push(s) => {
                self.push(s);
                None
            },
            Transition::Replace(s) => {
                let old_top = self.pop();
                self.push(s);
                Some(old_top)
            },
        }
    }
}

} // verus!
