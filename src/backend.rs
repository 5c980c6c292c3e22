//! Decisions a renderer makes about its cached GPU objects: when a render
//! pipeline must be built anew, and when the multisampled render target
//! must be recreated. The GPU objects themselves stay with the renderer.
use vstd::prelude::*;

verus! {

/// What a render pipeline is built for: the colour format, the depth
/// format if any, and the sample count. Formats are the renderer's codes.
#[derive(Clone, Copy, Debug, PartialEq, Eq, Structural)]
pub struct PipelineKey {
    pub format: u32,
    pub depth_format: Option<u32>,
    pub samples: u32,
}

/// A pipeline cached under the key it was built for.
pub struct PipelineCache<P> {
    pub current: Option<(PipelineKey, P)>,
}

impl<P> PipelineCache<P> {
    pub fn new() -> (r: PipelineCache<P>)
        ensures
            r.current is None,
    {
        PipelineCache { current: None }
    }

    /// The pipeline for `key`: the cached one where it was built for `key`,
    /// else the one `init` builds, which replaces it.
    pub fn get<F: FnOnce() -> P>(&mut self, key: PipelineKey, init: F) -> (r: &P)
        requires
            init.requires(()),
        ensures
            final(self).current matches Some((k, p)) && k == key && *r == p,
            (old(self).current matches Some((k, p)) && k == key) ==> final(self).current == old(self).current,
            !(old(self).current matches Some((k, p)) && k == key) ==> (final(self).current matches Some((_, p))
                && init.ensures((), p)),
    {
        let hit = match &self.current {
            Some((k, _)) => *k == key,
            None => false,
        };
        if !hit {
            let p = init();
            self.current = Some((key, p));
        }
        &self.current.as_ref().unwrap().1
    }
}

/// How a frame is rendered to the surface.
#[derive(Clone, Copy, Debug, PartialEq, Eq, Structural)]
pub enum SurfacePlan {
    /// Straight into the surface.
    Direct,
    /// Into a multisampled target resolved into the surface; the target is
    /// built first where `recreate` is set.
    Multisampled { recreate: bool },
}

/// The multisampled render target's bookkeeping: what it was made for, and
/// whether it exists.
#[derive(Clone, Copy, Debug, PartialEq, Eq, Structural)]
pub struct Multisampling {
    pub sample_count: u32,
    pub format: u32,
    pub width: u32,
    pub height: u32,
    pub has_target: bool,
}

impl Multisampling {
    /// No target yet, for four samples on an 800 by 600 surface.
    pub fn new(format: u32) -> (r: Multisampling)
        ensures
            r == (Multisampling { sample_count: 4, format, width: 800, height: 600, has_target: false }),
    {
        Multisampling { sample_count: 4, format, width: 800, height: 600, has_target: false }
    }

    /// How to render a frame on a surface of the given size and format with
    /// `sample_count` samples. A change of any of them drops the target; one
    /// sample renders directly; otherwise a missing target is recreated.
    pub fn surface_info(&mut self, width: u32, height: u32, format: u32, sample_count: u32) -> (r: SurfacePlan)
        ensures
            ({
                let changed = width != old(self).width || height != old(self).height || format != old(self).format
                    || sample_count != old(self).sample_count;
                let kept = old(self).has_target && !changed;
                &&& final(self).width == width
                &&& final(self).height == height
                &&& final(self).format == format
                &&& final(self).sample_count == sample_count
                &&& if sample_count == 1 {
                    r == SurfacePlan::Direct && final(self).has_target == kept
                } else {
                    r == (SurfacePlan::Multisampled { recreate: !kept }) && final(self).has_target
                }
            }),
    {
        if width != self.width || height != self.height || format != self.format || sample_count != self.sample_count {
            self.has_target = false;
        }
        self.width = width;
        self.height = height;
        self.format = format;
        self.sample_count = sample_count;
        if sample_count == 1 {
            return SurfacePlan::Direct;
        }
        let recreate = !self.has_target;
        self.has_target = true;
        SurfacePlan::Multisampled { recreate }
    }
}

} // verus!
