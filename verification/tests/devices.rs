use veritysetup::device::{device_init, Device, DeviceError, DeviceProbe, OpenOutcome};

const BLOCK_MODE: u32 = 0o060660;
const REGULAR_MODE: u32 = 0o100644;

fn probe(outcome: OpenOutcome, mode_bits: u32, alignment: Option<usize>) -> DeviceProbe {
    DeviceProbe { open_outcome: outcome, mode_bits, reported_alignment: alignment, block_size: 512 }
}

#[test]
fn empty_path_is_invalid() {
    let p = probe(OpenOutcome::Opened(3), BLOCK_MODE, None);
    assert_eq!(device_init(String::new(), &p), Err(DeviceError::InvalidParams));
}

#[test]
fn regular_file_is_not_a_block_device() {
    let p = probe(OpenOutcome::Opened(3), REGULAR_MODE, None);
    assert_eq!(
        device_init("/etc/hosts".to_string(), &p),
        Err(DeviceError::NotBlockDevice)
    );
}

#[test]
fn open_failures_are_passed_on() {
    let p = probe(OpenOutcome::Failed(DeviceError::NotFound), 0, None);
    assert_eq!(
        device_init("/dev/missing".to_string(), &p),
        Err(DeviceError::NotFound)
    );
    let p = probe(OpenOutcome::Failed(DeviceError::PermissionDenied), 0, None);
    assert_eq!(
        device_init("/dev/sealed".to_string(), &p),
        Err(DeviceError::PermissionDenied)
    );
}

#[test]
fn default_alignment_is_page_sized() {
    let p = probe(OpenOutcome::Opened(5), BLOCK_MODE, None);
    let d: Device = device_init("/dev/vda".to_string(), &p).unwrap();
    assert_eq!(d.alignment, 4096);
    assert_eq!(d.block_size, 512);
    assert_eq!(d.dev_fd, 5);
    assert!(d.o_direct);
    assert_eq!(d.path, "/dev/vda");
}

#[test]
fn reported_alignment_is_kept() {
    let p = probe(OpenOutcome::Opened(5), BLOCK_MODE, Some(512));
    let d = device_init("/dev/vdb".to_string(), &p).unwrap();
    assert_eq!(d.alignment, 512);
}
