//! Transport session decisions and the SMART attribute table decoder.
use vstd::prelude::*;

use crate::le::{le_bytes, lemma_le_bytes_bound, pow256, read_le};
use crate::ffi::{
    build_ata_passthrough12, cdb12, AtaCmd, Protocol, SgIoHdr, SmartSubCmd, ATA_12_LEN,
    SG_DXFER_FROM_DEV, SG_DXFER_NONE, SG_DXFER_TO_DEV,
};

verus! {

/// Size of the sense buffer lent to every exchange.
pub const SENSE_LEN: usize = 32;

/// Size of the data buffer that a SMART READ DATA fills (one sector).
pub const SMART_BUFFER_LEN: usize = 512;

/// Number of attribute slots in the SMART data structure.
pub const SMART_ATTR_COUNT: usize = 30;

/// Bytes that the decoder reads: the version word and the attribute slots.
pub const SMART_DATA_LEN: usize = 362;

/// LBA mid and high of every SMART command (0x4f, 0xc2).
pub const SMART_SIGNATURE: u16 = 0xc24f;

/// Why a SMART exchange failed.
#[derive(Debug, Clone, Copy, PartialEq, Eq)]
pub enum SmartError {
    /// The device could not be opened; carries the platform error number.
    OpenFailure { errno: i32 },
    /// The control call returned an error; carries the platform error number.
    TransportFailure { errno: i32 },
    /// The control call succeeded but the completion record holds a
    /// non-zero device, host or driver status; carries those and the sense
    /// buffer the device filled.
    DeviceStatusFailure {
        status: u8,
        host_status: u16,
        driver_status: u16,
        sense: [u8; SENSE_LEN],
    },
    /// The response could not be decoded.
    Parse(ParseFailure),
    /// The caller asked for an exchange that cannot be described: both
    /// buffers at once, or a length that the request header cannot hold.
    PreconditionViolation,
}

/// Why a SMART data block could not be decoded.
#[derive(Debug, Clone, Copy, PartialEq, Eq, Structural)]
pub enum ParseFailure {
    /// The buffer is shorter than the fixed layout; carries its length.
    Truncated { len: usize },
    /// The structure version is not the one that the policy asks for.
    UnsupportedVersion { version: u16 },
}

/// What to do with the structure version of a SMART data block. The layout
/// of the slots is read the same way whatever the version says.
#[derive(Debug, Clone, Copy, PartialEq, Eq, Structural)]
pub enum VersionPolicy {
    /// Decode every version.
    AcceptAny,
    /// Decode only blocks that carry this version.
    Require(u16),
}

/// Which way data moves in one exchange, and how many bytes.
#[derive(Debug, Clone, Copy, PartialEq, Eq, Structural)]
pub enum Transfer {
    NoData,
    ToDevice(usize),
    FromDevice(usize),
}

/// Chooses the transfer from the optional input (host to device) and output
/// (device to host) buffer lengths; both at once is refused.
pub fn transfer_of(in_len: Option<usize>, out_len: Option<usize>) -> (r: Result<
    Transfer,
    SmartError,
>)
    ensures
        r == match (in_len, out_len) {
            (Some(n), None) => Ok(Transfer::ToDevice(n)),
            (None, Some(n)) => Ok(Transfer::FromDevice(n)),
            (None, None) => Ok(Transfer::NoData),
            (Some(_), Some(_)) => Err(SmartError::PreconditionViolation),
        },
{
    match (in_len, out_len) {
        (Some(n), None) => Ok(Transfer::ToDevice(n)),
        (None, Some(n)) => Ok(Transfer::FromDevice(n)),
        (None, None) => Ok(Transfer::NoData),
        (Some(_), Some(_)) => Err(SmartError::PreconditionViolation),
    }
}

/// Whether a header can describe a command of `cdb_len` bytes with `t`.
pub open spec fn describable(cdb_len: usize, t: Transfer) -> bool {
    &&& cdb_len <= u8::MAX
    &&& match t {
        Transfer::NoData => true,
        Transfer::ToDevice(n) => n <= u32::MAX,
        Transfer::FromDevice(n) => n <= u32::MAX,
    }
}

/// The request header for a command of `cdb_len` bytes, a sense buffer of
/// `SENSE_LEN` bytes and the transfer `t`.
pub open spec fn request_header(cdb_len: usize, t: Transfer) -> SgIoHdr {
    let h = SgIoHdr { cmd_len: cdb_len as u8, mx_sb_len: SENSE_LEN as u8, ..SgIoHdr::initial() };
    match t {
        Transfer::NoData => SgIoHdr { dxfer_direction: SG_DXFER_NONE, ..h },
        Transfer::ToDevice(n) => SgIoHdr { dxfer_direction: SG_DXFER_TO_DEV, dxfer_len: n as u32, ..h },
        Transfer::FromDevice(n) => SgIoHdr {
            dxfer_direction: SG_DXFER_FROM_DEV,
            dxfer_len: n as u32,
            ..h
        },
    }
}

/// What the completion record says once the control call has returned `ret`
/// (with `errno` the platform error it left), the header completed as `hdr`
/// and the sense buffer as `sense`.
pub open spec fn completion_of(ret: i32, errno: i32, hdr: SgIoHdr, sense: [u8; SENSE_LEN]) -> Result<
    (SgIoHdr, [u8; SENSE_LEN]),
    SmartError,
> {
    if ret < 0 {
        Err(SmartError::TransportFailure { errno })
    } else if hdr.status != 0 || hdr.host_status != 0 || hdr.driver_status != 0 {
        Err(
            SmartError::DeviceStatusFailure {
                status: hdr.status,
                host_status: hdr.host_status,
                driver_status: hdr.driver_status,
                sense,
            },
        )
    } else {
        Ok((hdr, sense))
    }
}

/// Platform error number of an open file that is not a block device.
pub const ENOTBLK: i32 = 15;

/// Whether the file mode `mode` (as `fstat` reports it) is that of a block
/// device: its file type bits (0o170000) are 0o060000.
pub open spec fn is_block_device(mode: u32) -> bool {
    (mode as int / 0o10000) % 16 == 6
}

/// One decoded attribute slot.
#[derive(Debug, Clone, Copy, PartialEq, Eq, Structural)]
pub struct SmartAttribute {
    pub id: u8,
    pub status: u16,
    pub value: u8,
    pub vendor: u64,
}

/// A decoded SMART data block: the structure version and every slot, in
/// order, empty ones (id 0) included.
#[derive(Debug, Clone, PartialEq, Eq)]
pub struct SmartReport {
    pub version: u16,
    pub attributes: Vec<SmartAttribute>,
}

/// The attribute in slot `i` of a SMART data block.
pub open spec fn attribute_at(raw: Seq<u8>, i: int) -> SmartAttribute {
    let o = 2 + 12 * i;
    SmartAttribute {
        id: raw[o],
        status: le_bytes(raw, o + 1, 2) as u16,
        value: raw[o + 3],
        vendor: le_bytes(raw, o + 4, 8) as u64,
    }
}

/// Whether `rep` is the decoding of the SMART data block `raw`.
pub open spec fn decodes(raw: Seq<u8>, rep: SmartReport) -> bool {
    &&& rep.version == version_of(raw)
    &&& rep.attributes@.len() == SMART_ATTR_COUNT
    &&& forall|i: int|
        0 <= i < SMART_ATTR_COUNT ==> #[trigger] rep.attributes@[i] == attribute_at(raw, i)
}

/// Decodes a SMART data block: the version word at offset 0, then thirty
/// twelve-byte slots from offset 2. Fails with `Truncated` on a buffer
/// shorter than that layout.
pub fn parse_smart_attributes(raw: &[u8]) -> (r: Result<SmartReport, ParseFailure>)
    ensures
        r is Ok <==> raw@.len() >= SMART_DATA_LEN,
        r is Ok ==> decodes(raw@, r->Ok_0),
        r is Err ==> r->Err_0 == (ParseFailure::Truncated { len: raw@.len() as usize }),
{
    if raw.len() < SMART_DATA_LEN {
        return Err(ParseFailure::Truncated { len: raw.len() });
    }
    proof {
        reveal_with_fuel(pow256, 3);
    }
    let version = read_le(raw, 0, 2) as u16;
    let mut attributes: Vec<SmartAttribute> = Vec::new();
    let mut i: usize = 0;
    while i < SMART_ATTR_COUNT
        invariant
            i <= SMART_ATTR_COUNT,
            raw@.len() >= SMART_DATA_LEN,
            attributes@.len() == i,
            forall|j: int| 0 <= j < i ==> #[trigger] attributes@[j] == attribute_at(raw@, j),
        decreases SMART_ATTR_COUNT - i,
    {
        let o: usize = 2 + 12 * i;
        proof {
            lemma_le_bytes_bound(raw@, o + 1, 2);
        }
        let attr = SmartAttribute {
            id: raw[o],
            status: read_le(raw, o + 1, 2) as u16,
            value: raw[o + 3],
            vendor: read_le(raw, o + 4, 8),
        };
        attributes.push(attr);
        i = i + 1;
    }
    proof {
        lemma_le_bytes_bound(raw@, 0, 2);
    }
    Ok(SmartReport { version, attributes })
}

/// The structure version of a SMART data block.
pub open spec fn version_of(raw: Seq<u8>) -> u16 {
    le_bytes(raw, 0, 2) as u16
}

/// Whether `policy` lets a block of structure version `version` through.
pub open spec fn accepts(policy: VersionPolicy, version: u16) -> bool {
    match policy {
        VersionPolicy::AcceptAny => true,
        VersionPolicy::Require(v) => v == version,
    }
}

/// Decodes a SMART data block as `parse_smart_attributes` does, then holds
/// its version to `policy`.
pub fn parse_smart_report(raw: &[u8], policy: VersionPolicy) -> (r: Result<
    SmartReport,
    ParseFailure,
>)
    ensures
        r is Ok <==> raw@.len() >= SMART_DATA_LEN && accepts(policy, version_of(raw@)),
        r is Ok ==> decodes(raw@, r->Ok_0),
        raw@.len() < SMART_DATA_LEN ==> r is Err && r->Err_0 == (ParseFailure::Truncated {
            len: raw@.len() as usize,
        }),
        raw@.len() >= SMART_DATA_LEN && !accepts(policy, version_of(raw@)) ==> r is Err
            && r->Err_0 == (ParseFailure::UnsupportedVersion { version: version_of(raw@) }),
{
    let rep = match parse_smart_attributes(raw) {
        Ok(rep) => rep,
        Err(e) => return Err(e),
    };
    match policy {
        VersionPolicy::Require(v) => {
            if v != rep.version {
                return Err(ParseFailure::UnsupportedVersion { version: rep.version });
            }
        },
        VersionPolicy::AcceptAny => {},
    }
    Ok(rep)
}

/// The command of a SMART READ DATA: SMART feature set, PIO in, one sector,
/// the SMART signature in LBA mid and high.
pub fn smart_read_cdb() -> (r: [u8; ATA_12_LEN])
    ensures
        r@ == cdb12(
            AtaCmd::SmartFunctionSet,
            Protocol::PioIn,
            SmartSubCmd::ReadAttr.spec_code() as u16,
            1,
            0,
            SMART_SIGNATURE,
        ),
{
    build_ata_passthrough12(
        AtaCmd::SmartFunctionSet,
        Protocol::PioIn,
        SmartSubCmd::ReadAttr.code() as u16,
        1,
        0,
        SMART_SIGNATURE,
    )
}

/// An open device on which SCSI-generic exchanges are made.
pub struct Smart {
    fd: i32,
}

impl Smart {
    /// A session only ever holds a descriptor that opening returned.
    #[verifier::type_invariant]
    spec fn inv(&self) -> bool {
        self.fd >= 0
    }

    /// The descriptor of the open device.
    pub closed spec fn spec_fd(&self) -> i32 {
        self.fd
    }

    /// The session for the descriptor `fd` that opening a device returned
    /// (leaving `errno`), whose file has the mode `mode`. Fails with the open
    /// failure and `errno` when `fd` is not a descriptor, and with the open
    /// failure `ENOTBLK` when the file is not a block device; the caller
    /// then still owns the descriptor.
    pub fn from_fd(fd: i32, errno: i32, mode: u32) -> (r: Result<Smart, SmartError>)
        ensures
            r is Ok <==> fd >= 0 && is_block_device(mode),
            r is Ok ==> r->Ok_0.spec_fd() == fd,
            fd < 0 ==> r is Err && r->Err_0 == (SmartError::OpenFailure { errno }),
            fd >= 0 && !is_block_device(mode) ==> r is Err && r->Err_0 == (
            SmartError::OpenFailure { errno: ENOTBLK }),
    {
        if fd < 0 {
            Err(SmartError::OpenFailure { errno })
        } else if (mode / 0o10000) % 16 != 6 {
            Err(SmartError::OpenFailure { errno: ENOTBLK })
        } else {
            Ok(Smart { fd })
        }
    }

    /// The descriptor of the open device.
    pub fn fd(&self) -> (r: i32)
        ensures
            r == self.spec_fd(),
            r >= 0,
    {
        proof {
            use_type_invariant(self);
        }
        self.fd
    }

    /// The request header of one exchange: a command of `cdb_len` bytes and
    /// at most one of an input buffer of `in_len` bytes and an output buffer
    /// of `out_len` bytes. Fails, before anything is sent, with a
    /// precondition violation when both buffers are given or a length does
    /// not fit the header.
    pub fn sg_io_request(
        &self,
        cdb_len: usize,
        in_len: Option<usize>,
        out_len: Option<usize>,
    ) -> (r: Result<SgIoHdr, SmartError>)
        ensures
            match (in_len, out_len) {
                (Some(_), Some(_)) => r == Err::<SgIoHdr, SmartError>(
                    SmartError::PreconditionViolation,
                ),
                _ => {
                    let t = match (in_len, out_len) {
                        (Some(n), None) => Transfer::ToDevice(n),
                        (None, Some(n)) => Transfer::FromDevice(n),
                        _ => Transfer::NoData,
                    };
                    if describable(cdb_len, t) {
                        r == Ok::<SgIoHdr, SmartError>(request_header(cdb_len, t))
                    } else {
                        r == Err::<SgIoHdr, SmartError>(SmartError::PreconditionViolation)
                    }
                },
            },
    {
        let t = match transfer_of(in_len, out_len) {
            Ok(t) => t,
            Err(e) => return Err(e),
        };
        if cdb_len > 255 {
            return Err(SmartError::PreconditionViolation);
        }
        let mut hdr = SgIoHdr::default();
        hdr.cmd_len = cdb_len as u8;
        hdr.mx_sb_len = SENSE_LEN as u8;
        match t {
            Transfer::NoData => {
                hdr.dxfer_direction = SG_DXFER_NONE;
            },
            Transfer::ToDevice(n) => {
                if n > 0xffff_ffff {
                    return Err(SmartError::PreconditionViolation);
                }
                hdr.dxfer_direction = SG_DXFER_TO_DEV;
                hdr.dxfer_len = n as u32;
            },
            Transfer::FromDevice(n) => {
                if n > 0xffff_ffff {
                    return Err(SmartError::PreconditionViolation);
                }
                hdr.dxfer_direction = SG_DXFER_FROM_DEV;
                hdr.dxfer_len = n as u32;
            },
        }
        Ok(hdr)
    }

    /// The report of a SMART READ DATA exchange: the control call returned
    /// `ret` (leaving `errno`) with the completed header `hdr` and sense
    /// buffer `sense`, and `buffer` holds what the device sent.
    pub fn smart_outcome(
        &self,
        ret: i32,
        errno: i32,
        hdr: SgIoHdr,
        sense: &[u8; SENSE_LEN],
        buffer: &[u8],
    ) -> (r: Result<SmartReport, SmartError>)
        ensures
            match completion_of(ret, errno, hdr, *sense) {
                Err(e) => r == Err::<SmartReport, SmartError>(e),
                Ok(_) => {
                    &&& (r is Ok <==> buffer@.len() >= SMART_DATA_LEN)
                    &&& r is Ok ==> decodes(buffer@, r->Ok_0)
                    &&& r is Err ==> r->Err_0 == SmartError::Parse(
                        ParseFailure::Truncated { len: buffer@.len() as usize },
                    )
                },
            },
    {
        match self.sg_io_completion(ret, errno, hdr, sense) {
            Err(e) => Err(e),
            Ok(_) => match parse_smart_attributes(buffer) {
                Ok(rep) => Ok(rep),
                Err(e) => Err(SmartError::Parse(e)),
            },
        }
    }

    /// Judges the control call's outcome: a negative return is a transport
    /// failure, a non-zero status in the completion record a device status
    /// failure (with the sense buffer); otherwise the completed header and
    /// the sense buffer.
    pub fn sg_io_completion(
        &self,
        ret: i32,
        errno: i32,
        hdr: SgIoHdr,
        sense: &[u8; SENSE_LEN],
    ) -> (r: Result<(SgIoHdr, [u8; SENSE_LEN]), SmartError>)
        ensures
            r == completion_of(ret, errno, hdr, *sense),
    {
        if ret < 0 {
            Err(SmartError::TransportFailure { errno })
        } else if hdr.status != 0 || hdr.host_status != 0 || hdr.driver_status != 0 {
            Err(
                SmartError::DeviceStatusFailure {
                    status: hdr.status,
                    host_status: hdr.host_status,
                    driver_status: hdr.driver_status,
                    sense: *sense,
                },
            )
        } else {
            Ok((hdr, *sense))
        }
    }
}

} // verus!
