use crate::descriptor_table::{DescriptorTable, TableError, MAX_DESCRIPTORS};
use crate::model::TableModel;
use ash::vk;
use vstd::prelude::*;

verus! {

#[verifier::external_type_specification]
#[verifier::external_body]
pub struct ExDescriptorSet(vk::DescriptorSet);

#[verifier::external_type_specification]
#[verifier::external_body]
pub struct ExDescriptorPool(vk::DescriptorPool);

#[verifier::external_type_specification]
#[verifier::external_body]
pub struct ExDescriptorSetLayout(vk::DescriptorSetLayout);

#[verifier::external_type_specification]
#[verifier::external_body]
pub struct ExDescriptorImageInfo(vk::DescriptorImageInfo);

#[verifier::external_type_specification]
#[verifier::external_body]
pub struct ExDescriptorBufferInfo(vk::DescriptorBufferInfo);

/// The binding of the registry's descriptor set that holds storage images.
pub const STORAGE_IMAGE_BINDING: u32 = 0;

/// How a resource is bound in a descriptor set.
#[derive(Clone, Copy, Debug)]
pub enum DescriptorInfo {
    Image(vk::DescriptorImageInfo),
    Buffer(vk::DescriptorBufferInfo),
}

/// A GPU resource that the registry can bind.
pub trait Resource {
    /// The descriptor that binds this resource.
    fn get_descriptor(&self) -> DescriptorInfo;
}

/// One descriptor write of a flush: bind `info` at array element `id` of the
/// storage-image binding.
#[derive(Clone, Copy, Debug)]
pub struct DescriptorWrite {
    pub id: u32,
    pub info: vk::DescriptorImageInfo,
}

/// The array elements that `ws` writes, in order.
pub open spec fn write_ids(ws: Seq<DescriptorWrite>) -> Seq<u32> {
    ws.map_values(|w: DescriptorWrite| w.id)
}

/// Pairs each handle of `ids` with the image descriptor at the same place of
/// `infos`. Fails, naming the handle, at the first descriptor that is not an
/// image's.
pub fn image_writes(ids: &Vec<u32>, infos: &Vec<DescriptorInfo>) -> (r: Result<
    Vec<DescriptorWrite>,
    TableError,
>)
    requires
        ids.len() == infos.len(),
    ensures
        match r {
            Ok(ws) => {
                &&& forall|k: int| 0 <= k < infos.len() ==> #[trigger] infos[k] is Image
                &&& ws.len() == ids.len()
                &&& forall|k: int|
                    0 <= k < ws.len() ==> #[trigger] ws[k].id == ids[k] && ws[k].info
                        == infos[k]->Image_0
            },
            Err(e) => exists|k: int|
                0 <= k < infos.len() && #[trigger] infos[k] is Buffer && (forall|j: int|
                    0 <= j < k ==> #[trigger] infos[j] is Image) && e
                    == TableError::DescriptorMismatch { index: ids[k] },
        },
{
    let mut ws: Vec<DescriptorWrite> = Vec::new();
    let mut k: usize = 0;
    while k < ids.len()
        invariant
            ids.len() == infos.len(),
            k <= ids.len(),
            ws.len() == k,
            forall|j: int| 0 <= j < k ==> #[trigger] infos[j] is Image,
            forall|j: int|
                0 <= j < k ==> #[trigger] ws[j].id == ids[j] && ws[j].info == infos[j]->Image_0,
        decreases ids.len() - k,
    {
        match &infos[k] {
            DescriptorInfo::Image(info) => {
                ws.push(DescriptorWrite { id: ids[k], info: *info });
            },
            DescriptorInfo::Buffer(_) => {
                return Err(TableError::DescriptorMismatch { index: ids[k] });
            },
        }
        k = k + 1;
    }
    Ok(ws)
}

/// The bindless registry: one descriptor set whose storage-image binding is
/// indexed by the handles of a slot table.
///
/// Allocating or freeing a resource only changes the table; `update` hands
/// out the descriptor writes that bring the set up to date.
pub struct GPUResourceTable<I> {
    handle: vk::DescriptorSet,
    pool: vk::DescriptorPool,
    layout: vk::DescriptorSetLayout,
    storage_image: DescriptorTable<I>,
}

impl<I: Resource> GPUResourceTable<I> {
    /// The table of storage images.
    pub closed spec fn storage_images(&self) -> TableModel<I> {
        self.storage_image@
    }

    /// The descriptor set, the pool it came from, and its layout.
    pub closed spec fn native_handles(&self) -> (
        vk::DescriptorSet,
        vk::DescriptorPool,
        vk::DescriptorSetLayout,
    ) {
        (self.handle, self.pool, self.layout)
    }

    /// A registry over the descriptor set `handle`, allocated from `pool`
    /// with `layout`, with room for `MAX_DESCRIPTORS` storage images and none
    /// allocated.
    pub fn new(
        handle: vk::DescriptorSet,
        pool: vk::DescriptorPool,
        layout: vk::DescriptorSetLayout,
    ) -> (r: Self)
        ensures
            r.storage_images() == TableModel::<I>::empty(MAX_DESCRIPTORS as nat),
            r.storage_images().wf(),
            r.native_handles() == (handle, pool, layout),
    {
        GPUResourceTable { handle, pool, layout, storage_image: DescriptorTable::new() }
    }

    pub fn get_pool(&self) -> (r: &vk::DescriptorPool)
        ensures
            *r == self.native_handles().1,
    {
        &self.pool
    }

    pub fn get_layout(&self) -> (r: &vk::DescriptorSetLayout)
        ensures
            *r == self.native_handles().2,
    {
        &self.layout
    }

    pub fn get_descriptor(&self) -> (r: &vk::DescriptorSet)
        ensures
            *r == self.native_handles().0,
    {
        &self.handle
    }

    /// Registers `resource` under a fresh storage-image handle. Its descriptor
    /// is written at the next `update`.
    pub fn allocate_storage_image(&mut self, resource: I) -> (r: Result<u32, TableError>)
        requires
            old(self).storage_images().wf(),
        ensures
            final(self).storage_images().wf(),
            final(self).native_handles() == old(self).native_handles(),
            match r {
                Ok(id) => {
                    &&& !old(self).storage_images().is_full()
                    &&& id == old(self).storage_images().next_handle()
                    &&& final(self).storage_images() == old(self).storage_images().allocate(
                        resource,
                    )
                },
                Err(e) => {
                    &&& old(self).storage_images().is_full()
                    &&& e == TableError::ResourceExhausted
                    &&& final(self).storage_images() == old(self).storage_images()
                },
            },
    {
        self.storage_image.allocate_resource(resource)
    }

    /// Drops the storage image under `index` and recycles the handle. No GPU
    /// work in flight may still read it.
    pub fn free_storage_image(&mut self, index: u32)
        requires
            old(self).storage_images().wf(),
            old(self).storage_images().is_live(index),
        ensures
            final(self).storage_images() == old(self).storage_images().release(index),
            final(self).storage_images().wf(),
            final(self).native_handles() == old(self).native_handles(),
    {
        self.storage_image.free_resource(index)
    }

    /// The slot of storage image `index`: `None` once freed.
    pub fn get_storage_image(&self, index: usize) -> (r: &Option<I>)
        requires
            index < self.storage_images().slots.len(),
        ensures
            *r == self.storage_images().slots[index as int],
    {
        self.storage_image.get_resource(index)
    }

    /// Whether `index` names a storage image that the registry holds.
    pub fn is_storage_image_live(&self, index: u32) -> (r: bool)
        ensures
            r == self.storage_images().is_live(index),
    {
        self.storage_image.is_live(index)
    }

    /// The descriptor writes that bring the set up to date: one for each
    /// pending handle that is still live, each once. On success the pending
    /// writes are cleared; the caller submits the writes before any work that
    /// reads those handles. Fails, changing nothing, when such a resource does
    /// not describe itself as an image.
    pub fn update(&mut self) -> (r: Result<Vec<DescriptorWrite>, TableError>)
        requires
            old(self).storage_images().wf(),
        ensures
            final(self).storage_images().wf(),
            final(self).native_handles() == old(self).native_handles(),
            match r {
                Ok(ws) => {
                    &&& final(self).storage_images() == old(self).storage_images().cleared()
                    &&& write_ids(ws@).no_duplicates()
                    &&& write_ids(ws@).to_set() == old(self).storage_images().flush_set()
                },
                Err(e) => {
                    &&& final(self).storage_images() == old(self).storage_images()
                    &&& e is DescriptorMismatch
                    &&& old(self).storage_images().flush_set().contains(e->index)
                },
            },
            old(self).storage_images().flush_set().is_empty() ==> r is Ok,
    {
        let ids = self.storage_image.collect_writes();
        let mut infos: Vec<DescriptorInfo> = Vec::new();
        let mut k: usize = 0;
        while k < ids.len()
            invariant
                self.storage_image@.wf(),
                ids@.to_set() == self.storage_image@.flush_set(),
                k <= ids.len(),
                infos.len() == k,
            decreases ids.len() - k,
        {
            let id: u32 = ids[k];
            assert(ids@.to_set().contains(ids@[k as int]));
            let slot = self.storage_image.get_resource(id as usize);
            if let Some(resource) = slot {
                infos.push(resource.get_descriptor());
            } else {
                assert(false);
            }
            k = k + 1;
        }
        match image_writes(&ids, &infos) {
            Ok(ws) => {
                self.storage_image.clear_writes();
                proof {
                    assert(write_ids(ws@) =~= ids@);
                }
                Ok(ws)
            },
            Err(e) => {
                proof {
                    let k: int = choose|k: int|
                        0 <= k < infos.len() && #[trigger] infos[k] is Buffer && (forall|j: int|
                            0 <= j < k ==> #[trigger] infos[j] is Image) && e
                            == TableError::DescriptorMismatch { index: ids[k] };
                    assert(ids@.to_set().contains(ids@[k]));
                }
                Err(e)
            },
        }
    }
}

} // verus!
