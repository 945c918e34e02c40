use vstd::prelude::*;

verus! {

/// Failures of opening and validating a block device.
#[derive(Clone, Copy, Debug, PartialEq, Eq, Structural)]
pub enum DeviceError {
    InvalidParams,
    NotFound,
    PermissionDenied,
    NotBlockDevice,
}

/// What the operating system answered when the device path was opened.
/// The caller performs the open and reports the outcome here; mapping an
/// open failure onto a `DeviceError` is its duty.
#[derive(Clone, Copy, Debug, PartialEq, Eq, Structural)]
pub enum OpenOutcome {
    Opened(i32),
    Failed(DeviceError),
}

/// Everything the operating system reports about a device path: the open
/// outcome, the file mode bits of the path, the alignment the device
/// reports (if any), and its block size.
#[derive(Clone, Copy, Debug)]
pub struct DeviceProbe {
    pub open_outcome: OpenOutcome,
    pub mode_bits: u32,
    pub reported_alignment: Option<usize>,
    pub block_size: usize,
}

/// An opened, validated block-special device.
#[derive(Debug, PartialEq, Eq)]
pub struct Device {
    pub path: String,
    pub dev_fd: i32,
    pub o_direct: bool,
    pub alignment: usize,
    pub block_size: usize,
}

/// The mathematical image of a `Device`.
pub struct DeviceModel {
    pub path: Seq<char>,
    pub dev_fd: int,
    pub o_direct: bool,
    pub alignment: nat,
    pub block_size: nat,
}

impl View for Device {
    type V = DeviceModel;

    open spec fn view(&self) -> DeviceModel {
        DeviceModel {
            path: self.path@,
            dev_fd: self.dev_fd as int,
            o_direct: self.o_direct,
            alignment: self.alignment as nat,
            block_size: self.block_size as nat,
        }
    }
}

/// The file-mode bits that give a path's kind, and the value among them
/// that marks a block-special device.
pub const MODE_KIND_MASK: u32 = 0o170000;

pub const MODE_BLOCK_DEVICE: u32 = 0o060000;

/// Memory alignment assumed for a device that reports none.
pub const DEFAULT_MEM_ALIGNMENT: usize = 4096;

pub open spec fn is_block_mode(mode_bits: u32) -> bool {
    mode_bits & MODE_KIND_MASK == MODE_BLOCK_DEVICE
}

/// What `device_init` returns for a path and a probe: an empty path is
/// rejected before the probe is consulted; an open failure is passed on;
/// a path that is not block-special is rejected; otherwise the device
/// record is filled in, with the default alignment where none was
/// reported.
pub open spec fn device_init_result(device_path: Seq<char>, probe: DeviceProbe) -> Result<
    DeviceModel,
    DeviceError,
> {
    if device_path.len() == 0 {
        Err(DeviceError::InvalidParams)
    } else {
        match probe.open_outcome {
            OpenOutcome::Failed(e) => Err(e),
            OpenOutcome::Opened(fd) => if !is_block_mode(probe.mode_bits) {
                Err(DeviceError::NotBlockDevice)
            } else {
                Ok(
                    DeviceModel {
                        path: device_path,
                        dev_fd: fd as int,
                        o_direct: true,
                        alignment: match probe.reported_alignment {
                            Some(a) => a as nat,
                            None => DEFAULT_MEM_ALIGNMENT as nat,
                        },
                        block_size: probe.block_size as nat,
                    },
                )
            },
        }
    }
}

/// Validates a device path against what the operating system reports of
/// it and builds the device record.
pub fn device_init(device_path: String, probe: &DeviceProbe) -> (r: Result<Device, DeviceError>)
    ensures
        match r {
            Ok(d) => device_init_result(device_path@, *probe) == Ok::<DeviceModel, DeviceError>(
                d@,
            ),
            Err(e) => device_init_result(device_path@, *probe) == Err::<DeviceModel, DeviceError>(
                e,
            ),
        },
{
    if device_path.as_str().is_empty() {
        return Err(DeviceError::InvalidParams);
    }
    let fd = match probe.open_outcome {
        OpenOutcome::Failed(e) => {
            return Err(e);
        },
        OpenOutcome::Opened(fd) => fd,
    };
    if probe.mode_bits & MODE_KIND_MASK != MODE_BLOCK_DEVICE {
        return Err(DeviceError::NotBlockDevice);
    }
    let alignment = match probe.reported_alignment {
        Some(a) => a,
        None => DEFAULT_MEM_ALIGNMENT,
    };
    Ok(
        Device {
            path: device_path,
            dev_fd: fd,
            o_direct: true,
            alignment,
            block_size: probe.block_size,
        },
    )
}

} // verus!
