use vstd::prelude::*;
use crate::pipeline::RenderPipelineInfo;

verus! {

/// Something a content module hands to the renderer: a model drawn over a
/// range of instances from an instance buffer, or an animated model drawn
/// through its entity tree.
pub enum Drawable<M, B> {
    Instanced { model: M, first_instance: u32, end_instance: u32, buffer: B },
    Animated { model: M },
}

/// The drawables registered so far, each under the tag of the pipeline
/// that draws it, in registration order.
pub struct DrawableRegistry<D> {
    entries: Vec<(String, D)>,
}

impl<D> DrawableRegistry<D> {
    /// Tags and drawables in registration order.
    pub closed spec fn view(&self) -> Seq<(Seq<char>, D)> {
        self.entries@.map_values(|e: (String, D)| (e.0@, e.1))
    }

    pub fn new() -> (r: Self)
        ensures
            r@.len() == 0,
    {
        DrawableRegistry { entries: Vec::new() }
    }

    /// Registers a drawable under `tag`.
    pub fn register_drawable(&mut self, tag: String, drawable: D)
        ensures
            final(self)@ == old(self)@.push((tag@, drawable)),
    {
        let ghost before = self.entries@;
        self.entries.push((tag, drawable));
        proof {
            assert(self@ =~= before.map_values(|e: (String, D)| (e.0@, e.1)).push((tag@, drawable)));
        }
    }

    pub fn len(&self) -> (r: usize)
        ensures
            r == self@.len(),
    {
        self.entries.len()
    }

    /// The `i`-th registration.
    pub fn get(&self, i: usize) -> (r: (&String, &D))
        requires
            i < self@.len(),
        ensures
            (r.0@, *r.1) == self@[i as int],
    {
        let e = &self.entries[i];
        (&e.0, &e.1)
    }

    /// The first registration whose tag has no pipeline; `None` when every
    /// tag has one. Drawing must not start otherwise.
    pub fn first_unbound<P>(&self, pipelines: &RenderPipelineInfo<P>) -> (r: Option<usize>)
        requires
            pipelines.wf(),
        ensures
            match r {
                None => forall|i: int| 0 <= i < self@.len() ==> pipelines@.contains_key(#[trigger] self@[i].0),
                Some(i) => i < self@.len() && !pipelines@.contains_key(self@[i as int].0)
                    && forall|j: int| 0 <= j < i ==> pipelines@.contains_key(#[trigger] self@[j].0),
            },
    {
        let mut i: usize = 0;
        while i < self.entries.len()
            invariant
                i <= self@.len(),
                self@.len() == self.entries@.len(),
                pipelines.wf(),
                forall|j: int| 0 <= j < i ==> pipelines@.contains_key(#[trigger] self@[j].0),
            decreases self@.len() - i,
        {
            if pipelines.get(self.entries[i].0.as_str()).is_none() {
                return Some(i);
            }
            i = i + 1;
        }
        None
    }
}

/// The module that provides the ground plane.
pub struct BackgroundModule {}

impl BackgroundModule {
    pub fn new() -> (r: Self) {
        BackgroundModule {}
    }
}

/// The module that provides the instanced props.
pub struct ItemModule {}

impl ItemModule {
    pub fn new() -> (r: Self) {
        ItemModule {}
    }
}

} // verus!
