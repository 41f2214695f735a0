use ash::vk;
use ash::vk::Handle;
use bindless_table::descriptor_table::TableError;
use bindless_table::resource_table::{
    image_writes, DescriptorInfo, GPUResourceTable, Resource, STORAGE_IMAGE_BINDING,
};

fn image_info(view: u64) -> vk::DescriptorImageInfo {
    vk::DescriptorImageInfo {
        sampler: vk::Sampler::null(),
        image_view: vk::ImageView::from_raw(view),
        image_layout: vk::ImageLayout::GENERAL,
    }
}

fn buffer_info(buffer: u64) -> vk::DescriptorBufferInfo {
    vk::DescriptorBufferInfo {
        buffer: vk::Buffer::from_raw(buffer),
        offset: 0,
        range: 64,
    }
}

/// A stand-in for a GPU image: its view handle is all the registry reads.
#[derive(Debug, PartialEq)]
struct FakeImage {
    view: u64,
}

impl Resource for FakeImage {
    fn get_descriptor(&self) -> DescriptorInfo {
        DescriptorInfo::Image(image_info(self.view))
    }
}

/// A resource that describes itself as a buffer.
enum Mixed {
    Image(u64),
    Buffer(u64),
}

impl Resource for Mixed {
    fn get_descriptor(&self) -> DescriptorInfo {
        match self {
            Mixed::Image(v) => DescriptorInfo::Image(image_info(*v)),
            Mixed::Buffer(b) => DescriptorInfo::Buffer(buffer_info(*b)),
        }
    }
}

fn registry<I: Resource>() -> GPUResourceTable<I> {
    GPUResourceTable::new(
        vk::DescriptorSet::from_raw(11),
        vk::DescriptorPool::from_raw(12),
        vk::DescriptorSetLayout::from_raw(13),
    )
}

#[test]
fn image_writes_pairs_ids_with_image_infos() {
    let ids = vec![4u32, 9, 2];
    let infos = vec![
        DescriptorInfo::Image(image_info(40)),
        DescriptorInfo::Image(image_info(90)),
        DescriptorInfo::Image(image_info(20)),
    ];
    let ws = image_writes(&ids, &infos).unwrap();
    assert_eq!(ws.len(), 3);
    let got: Vec<(u32, u64)> = ws.iter().map(|w| (w.id, w.info.image_view.as_raw())).collect();
    assert_eq!(got, vec![(4, 40), (9, 90), (2, 20)]);
    assert_eq!(ws[1].info.image_layout, vk::ImageLayout::GENERAL);
}

#[test]
fn image_writes_refuses_a_buffer_descriptor() {
    let ids = vec![4u32, 9, 2];
    let infos = vec![
        DescriptorInfo::Image(image_info(40)),
        DescriptorInfo::Buffer(buffer_info(90)),
        DescriptorInfo::Buffer(buffer_info(20)),
    ];
    assert_eq!(
        image_writes(&ids, &infos).unwrap_err(),
        TableError::DescriptorMismatch { index: 9 }
    );
}

#[test]
fn image_writes_of_nothing_is_empty() {
    assert!(image_writes(&Vec::new(), &Vec::new()).unwrap().is_empty());
}

#[test]
fn registry_exposes_its_native_handles() {
    let t: GPUResourceTable<FakeImage> = registry();
    assert_eq!(t.get_descriptor().as_raw(), 11);
    assert_eq!(t.get_pool().as_raw(), 12);
    assert_eq!(t.get_layout().as_raw(), 13);
    assert_eq!(STORAGE_IMAGE_BINDING, 0);
}

#[test]
fn registry_scenario_three_images() {
    let mut t: GPUResourceTable<FakeImage> = registry();
    for (expected, view) in [(0u32, 100u64), (1, 101), (2, 102)] {
        assert_eq!(t.allocate_storage_image(FakeImage { view }), Ok(expected));
    }
    t.free_storage_image(1);
    assert!(!t.is_storage_image_live(1));
    assert_eq!(t.allocate_storage_image(FakeImage { view: 201 }), Ok(1));
    let mut ws: Vec<(u32, u64)> = t
        .update()
        .unwrap()
        .iter()
        .map(|w| (w.id, w.info.image_view.as_raw()))
        .collect();
    ws.sort();
    assert_eq!(ws, vec![(0, 100), (1, 201), (2, 102)]);
    assert!(t.update().unwrap().is_empty());
    assert_eq!(t.get_storage_image(1), &Some(FakeImage { view: 201 }));
}

#[test]
fn registry_freed_before_update_is_not_written() {
    let mut t: GPUResourceTable<FakeImage> = registry();
    let h = t.allocate_storage_image(FakeImage { view: 5 }).unwrap();
    t.free_storage_image(h);
    assert!(t.update().unwrap().is_empty());
    assert_eq!(t.get_storage_image(h as usize), &None);
}

#[test]
fn registry_round_trip() {
    let mut t: GPUResourceTable<FakeImage> = registry();
    let h = t.allocate_storage_image(FakeImage { view: 77 }).unwrap();
    assert!(t.is_storage_image_live(h));
    assert_eq!(t.get_storage_image(h as usize), &Some(FakeImage { view: 77 }));
    t.free_storage_image(h);
    assert_eq!(t.get_storage_image(h as usize), &None);
}

#[test]
fn registry_update_rejects_a_buffer_and_keeps_pending_writes() {
    let mut t: GPUResourceTable<Mixed> = registry();
    assert_eq!(t.allocate_storage_image(Mixed::Image(1)), Ok(0));
    assert_eq!(t.allocate_storage_image(Mixed::Buffer(2)), Ok(1));
    assert_eq!(
        t.update().unwrap_err(),
        TableError::DescriptorMismatch { index: 1 }
    );
    t.free_storage_image(1);
    let ws = t.update().unwrap();
    assert_eq!(ws.len(), 1);
    assert_eq!(ws[0].id, 0);
    assert_eq!(ws[0].info.image_view.as_raw(), 1);
}

#[test]
fn registry_capacity_boundary() {
    let mut t: GPUResourceTable<FakeImage> = registry();
    for v in 0..65536u64 {
        assert_eq!(t.allocate_storage_image(FakeImage { view: v }), Ok(v as u32));
    }
    assert_eq!(
        t.allocate_storage_image(FakeImage { view: 0 }),
        Err(TableError::ResourceExhausted)
    );
    assert_eq!(t.update().unwrap().len(), 65536);
}
