use wgpu_engine::registry::{BufferRegistry, BufferUsage, RegistryError, UsageClass};

fn usage() -> BufferUsage {
    BufferUsage {
        vertex: false,
        index: false,
        uniform: true,
        storage: false,
        copy_dst: true,
        copy_src: false,
    }
}

#[test]
fn aligned_size_rounds_up() {
    let reg = BufferRegistry::new(256, 256);
    assert_eq!(reg.aligned_size(0, UsageClass::Uniform), 0);
    assert_eq!(reg.aligned_size(1, UsageClass::Uniform), 256);
    assert_eq!(reg.aligned_size(100, UsageClass::Uniform), 256);
    assert_eq!(reg.aligned_size(256, UsageClass::Uniform), 256);
    assert_eq!(reg.aligned_size(257, UsageClass::Storage), 512);
}

#[test]
fn aligned_size_is_idempotent_and_inflationary() {
    let reg = BufferRegistry::new(256, 64);
    for value in [0u64, 1, 63, 64, 100, 255, 256, 1000] {
        for class in [UsageClass::Uniform, UsageClass::Storage] {
            let once = reg.aligned_size(value, class);
            let twice = reg.aligned_size(once, class);
            assert_eq!(once, twice);
            assert!(once >= value);
            assert_eq!(once % reg.alignment(class), 0);
        }
    }
}

#[test]
fn object_offset_uses_aligned_stride() {
    let reg = BufferRegistry::new(256, 256);
    // A 64-byte element in a 256-byte-aligned storage array: object 5 sits
    // at 5 * 256.
    assert_eq!(reg.object_offset(5, 64, UsageClass::Storage), 5 * 256);
    assert_eq!(reg.object_offset(0, 64, UsageClass::Storage), 0);
}

#[test]
fn write_read_round_trip() {
    let mut reg = BufferRegistry::new(256, 256);
    reg.create("buf", 16, usage()).unwrap();
    reg.write("buf", 4, &[1, 2, 3]).unwrap();
    let bytes = reg.read("buf", 4, 3).unwrap();
    assert_eq!(bytes, vec![1, 2, 3]);
    // Untouched bytes keep their zeroed initial contents.
    assert_eq!(reg.read("buf", 0, 4).unwrap(), vec![0, 0, 0, 0]);
    assert_eq!(reg.read("buf", 7, 9).unwrap(), vec![0; 9]);
}

#[test]
fn write_nonexistent_buffer_reports_not_found() {
    let mut reg = BufferRegistry::new(256, 256);
    reg.create("present", 8, usage()).unwrap();
    reg.write("present", 0, &[9, 9]).unwrap();
    let outcome = reg.write("nonexistent_buffer", 0, &[1, 2, 3]);
    assert_eq!(outcome, Err(RegistryError::BufferNotFound));
    // Registry state unchanged.
    assert_eq!(reg.buffer_count(), 1);
    assert_eq!(reg.read("present", 0, 2).unwrap(), vec![9, 9]);
}

#[test]
fn read_nonexistent_buffer_reports_not_found() {
    let reg = BufferRegistry::new(256, 256);
    assert_eq!(reg.read("ghostly", 0, 0), Err(RegistryError::BufferNotFound));
}

#[test]
fn create_is_an_idempotent_no_op() {
    let mut reg = BufferRegistry::new(256, 256);
    assert_eq!(reg.create("buf", 8, usage()), Ok(()));
    reg.write("buf", 0, &[7]).unwrap();
    // A second creation under the same id succeeds and changes nothing.
    assert_eq!(reg.create("buf", 999, usage()), Ok(()));
    assert_eq!(reg.buffer_size("buf"), Some(8));
    assert_eq!(reg.read("buf", 0, 1).unwrap(), vec![7]);
    assert_eq!(reg.buffer_count(), 1);
}

#[test]
fn create_with_contents_keeps_first_contents() {
    let mut reg = BufferRegistry::new(256, 256);
    reg.create_with_contents("buf", &[1, 2, 3, 4], usage()).unwrap();
    reg.create_with_contents("buf", &[9, 9], usage()).unwrap();
    assert_eq!(reg.buffer_size("buf"), Some(4));
    assert_eq!(reg.read("buf", 0, 4).unwrap(), vec![1, 2, 3, 4]);
}

#[test]
fn write_or_create_creates_then_overwrites() {
    let mut reg = BufferRegistry::new(256, 256);
    reg.write_or_create("mesh vertex_buffer", &[1, 2, 3, 4], usage());
    assert_eq!(reg.read("mesh vertex_buffer", 0, 4).unwrap(), vec![1, 2, 3, 4]);
    reg.write_or_create("mesh vertex_buffer", &[8, 8], usage());
    assert_eq!(reg.read("mesh vertex_buffer", 0, 4).unwrap(), vec![8, 8, 3, 4]);
    assert_eq!(reg.buffer_count(), 1);
}

#[test]
fn write_or_create_touches_no_other_buffer() {
    let mut reg = BufferRegistry::new(256, 256);
    reg.create_with_contents("mesh vertex_buffer", &[1, 2], usage()).unwrap();
    reg.create_with_contents("mesh index_buffer", &[7, 7, 7], usage()).unwrap();
    reg.write_or_create("mesh vertex_buffer", &[9, 9], usage());
    assert_eq!(reg.buffer_count(), 2);
    assert_eq!(reg.read("mesh index_buffer", 0, 3).unwrap(), vec![7, 7, 7]);
    assert_eq!(reg.read("mesh vertex_buffer", 0, 2).unwrap(), vec![9, 9]);
}

#[test]
fn buffers_are_zero_initialized() {
    let mut reg = BufferRegistry::new(256, 256);
    reg.create("z", 5, usage()).unwrap();
    assert_eq!(reg.read("z", 0, 5).unwrap(), vec![0; 5]);
}

#[test]
fn contains_and_size_queries() {
    let mut reg = BufferRegistry::new(64, 32);
    assert!(!reg.contains("a"));
    reg.create("a", 3, usage()).unwrap();
    assert!(reg.contains("a"));
    assert_eq!(reg.buffer_size("a"), Some(3));
    assert_eq!(reg.buffer_size("b"), None);
    assert_eq!(reg.alignment(UsageClass::Uniform), 64);
    assert_eq!(reg.alignment(UsageClass::Storage), 32);
}
