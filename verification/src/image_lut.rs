//! A persistently allocated lookup image regenerated through the graph:
//! the owner imports it at its last known access, a pluggable strategy
//! enqueues the passes that fill it, and it is exported shader-readable.
//! This is the import/export contract every long-lived, graph-external
//! resource follows.

use vstd::prelude::*;
use crate::access::AccessType;
use crate::resource::{Image, ImageDesc, ResourceDesc, ResourceKind};
use crate::graph::{RenderGraph, Handle};
use crate::schedule::PassRef;
use crate::render_passes::clear_color;

verus! {

/// A strategy that allocates a lookup image once and enqueues whatever
/// passes regenerate its contents each time it is asked to.
pub trait ComputeImageLut {
    /// The shape of the image this strategy allocates.
    spec fn lut_desc(&self) -> ImageDesc;

    /// Allocate the backing image, outside any graph: an image of the
    /// strategy's shape that nothing has accessed yet.
    fn create(&mut self) -> (img: Image)
        ensures
            img.desc == old(self).lut_desc(),
            img.access == AccessType::Nothing,
            final(self).lut_desc() == old(self).lut_desc(),
    ;

    /// Enqueue the passes that fill the image behind `img` into this
    /// frame's graph.
    fn compute(&mut self, rg: &mut RenderGraph, img: &mut Handle)
        requires
            old(rg).graph_wf(),
            old(rg).spec_valid_handle(*old(img)),
            old(img).kind == ResourceKind::Image,
        ensures
            final(rg).graph_wf(),
            *final(img) == *old(img),
            final(rg).resources@.len() >= old(rg).resources@.len(),
            final(rg).resources@.subrange(0, old(rg).resources@.len() as int)
                == old(rg).resources@,
            final(rg).passes@.len() >= old(rg).passes@.len(),
            final(rg).passes@.subrange(0, old(rg).passes@.len() as int) == old(rg).passes@,
            final(rg).exports@ == old(rg).exports@,
            final(self).lut_desc() == old(self).lut_desc(),
    ;
}

/// A strategy that fills the lookup image with one clear pass; the
/// simplest regeneration a lookup image can have.
pub struct ClearLutComputer {
    pub desc: ImageDesc,
    pub value_bits: [u32; 4],
}

impl ComputeImageLut for ClearLutComputer {
    open spec fn lut_desc(&self) -> ImageDesc {
        self.desc
    }

    fn create(&mut self) -> (img: Image) {
        Image { desc: self.desc, access: AccessType::Nothing }
    }

    fn compute(&mut self, rg: &mut RenderGraph, img: &mut Handle) {
        clear_color(rg, img, self.value_bits);
        proof {
            assert(rg.resources@.subrange(0, rg.resources@.len() as int) =~= rg.resources@);
            assert(rg.passes@.subrange(0, old(rg).passes@.len() as int) =~= old(rg).passes@);
        }
    }
}

/// One persistently allocated lookup image plus the strategy that fills it.
pub struct ImageLut<C: ComputeImageLut> {
    pub image: Image,
    pub computer: C,
}

impl<C: ComputeImageLut> ImageLut<C> {
    /// Allocate the backing image through the strategy, once, outside any
    /// graph; no pass is enqueued, and the image starts unaccessed.
    pub fn new(computer: C) -> (r: ImageLut<C>)
        ensures
            r.image.desc == computer.lut_desc(),
            r.image.access == AccessType::Nothing,
            r.computer.lut_desc() == computer.lut_desc(),
    {
        let mut computer = computer;
        let image = computer.create();
        ImageLut { image, computer }
    }

    /// Regenerate the lookup image inside this frame's graph: import it at
    /// its last known access into a fresh slot, let the strategy enqueue
    /// its passes over that very slot, and export the same slot
    /// shader-readable, which is also the access the owner then tracks for
    /// the next import. The persistent image itself is never replaced.
    pub fn compute(&mut self, rg: &mut RenderGraph)
        requires
            old(rg).graph_wf(),
        ensures
            final(rg).graph_wf(),
            final(self).image.desc == old(self).image.desc,
            final(self).image.access == AccessType::AnyShaderReadSampled,
            final(self).computer.lut_desc() == old(self).computer.lut_desc(),
            // the image is imported into a fresh slot at its tracked state
            final(rg).resources@.len() > old(rg).resources@.len(),
            final(rg).resources@.subrange(0, old(rg).resources@.len() as int)
                == old(rg).resources@,
            final(rg).resources@[old(rg).resources@.len() as int] == (crate::graph::ResourceSlot {
                desc: ResourceDesc::Image(old(self).image.desc),
                initial_access: old(self).image.access,
                imported: true,
            }),
            // earlier passes survive; the strategy only appends
            final(rg).passes@.len() >= old(rg).passes@.len(),
            final(rg).passes@.subrange(0, old(rg).passes@.len() as int) == old(rg).passes@,
            // exactly the imported slot is exported, shader-readable
            final(rg).exports@ == old(rg).exports@.push(
                PassRef {
                    slot: old(rg).resources@.len() as usize,
                    access: AccessType::AnyShaderReadSampled,
                },
            ),
    {
        let mut handle = rg.import_image(&self.image);
        let ghost mid = *rg;
        proof {
            assert(rg.passes@.subrange(0, old(rg).passes@.len() as int) =~= old(rg).passes@);
        }
        self.computer.compute(rg, &mut handle);
        proof {
            assert(rg.spec_valid_handle(handle));
            let oldlen = old(rg).resources@.len() as int;
            assert(forall|i: int|
                0 <= i < mid.resources@.len() ==> rg.resources@.subrange(
                    0,
                    mid.resources@.len() as int,
                )[i] == rg.resources@[i]);
            assert(forall|i: int|
                0 <= i < mid.resources@.len() ==> rg.resources@[i] == mid.resources@[i]);
            assert(rg.resources@.subrange(0, oldlen) =~= old(rg).resources@);
            assert(rg.resources@[oldlen] == mid.resources@[oldlen]);
            let oldp = old(rg).passes@.len() as int;
            assert(forall|i: int|
                0 <= i < mid.passes@.len() ==> rg.passes@.subrange(0, mid.passes@.len() as int)[i]
                    == rg.passes@[i]);
            assert(forall|i: int| 0 <= i < mid.passes@.len() ==> rg.passes@[i] == mid.passes@[i]);
            assert(rg.passes@.subrange(0, oldp) =~= old(rg).passes@);
        }
        rg.export(handle, AccessType::AnyShaderReadSampled);
        self.image.access = AccessType::AnyShaderReadSampled;
    }
}

} // verus!
