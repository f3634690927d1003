use smartinfo::ffi::{SgIoHdr, SG_DXFER_FROM_DEV, SG_DXFER_NONE, SG_DXFER_TO_DEV};
use smartinfo::smart::{
    parse_smart_attributes, parse_smart_report, transfer_of, ParseFailure, Smart,
    SmartAttribute, SmartError, Transfer, VersionPolicy, ENOTBLK, SENSE_LEN,
};

/// File mode of a block device readable by its owner and group.
const BLOCK_MODE: u32 = 0o060660;

fn crafted() -> Vec<u8> {
    let mut raw = vec![0u8; 362];
    raw[0] = 1;
    raw[2] = 5;
    raw[3] = 0x06;
    raw[4] = 0x00;
    raw[5] = 100;
    raw[6..14].copy_from_slice(&0x1122334455667788u64.to_le_bytes());
    raw
}

#[test]
fn parse_needs_full_layout() {
    let raw = vec![0u8; 361];
    assert_eq!(
        parse_smart_attributes(&raw),
        Err(ParseFailure::Truncated { len: 361 })
    );
    let raw = vec![0u8; 362];
    let rep = parse_smart_attributes(&raw).unwrap();
    assert_eq!(rep.attributes.len(), 30);
    assert_eq!(parse_smart_attributes(&[]), Err(ParseFailure::Truncated { len: 0 }));
}

#[test]
fn parse_crafted_first_slot() {
    let rep = parse_smart_attributes(&crafted()).unwrap();
    assert_eq!(rep.version, 1);
    assert_eq!(
        rep.attributes[0],
        SmartAttribute { id: 5, status: 6, value: 100, vendor: 0x1122334455667788 }
    );
    assert_eq!(rep.attributes[1], SmartAttribute { id: 0, status: 0, value: 0, vendor: 0 });
}

#[test]
fn parse_every_slot_in_place() {
    let mut raw = vec![0u8; 512];
    raw[0] = 0x10;
    raw[1] = 0x00;
    for i in 0..30 {
        let o = 2 + 12 * i;
        raw[o] = i as u8 + 1;
        raw[o + 1] = 0x34;
        raw[o + 2] = 0x12;
        raw[o + 3] = 200 - i as u8;
        raw[o + 4] = i as u8;
        raw[o + 11] = 0x80;
    }
    let rep = parse_smart_attributes(&raw).unwrap();
    assert_eq!(rep.version, 0x10);
    for i in 0..30 {
        let a = rep.attributes[i];
        assert_eq!(a.id, i as u8 + 1);
        assert_eq!(a.status, 0x1234);
        assert_eq!(a.value, 200 - i as u8);
        assert_eq!(a.vendor, 0x8000_0000_0000_0000 | i as u64);
    }
}

#[test]
fn version_policy() {
    let raw = crafted();
    assert!(parse_smart_report(&raw, VersionPolicy::AcceptAny).is_ok());
    assert!(parse_smart_report(&raw, VersionPolicy::Require(1)).is_ok());
    assert_eq!(
        parse_smart_report(&raw, VersionPolicy::Require(2)),
        Err(ParseFailure::UnsupportedVersion { version: 1 })
    );
    assert_eq!(
        parse_smart_report(&raw[..100], VersionPolicy::Require(2)),
        Err(ParseFailure::Truncated { len: 100 })
    );
}

#[test]
fn both_buffers_are_refused() {
    let d = Smart::from_fd(3, 0, BLOCK_MODE).unwrap();
    assert_eq!(
        d.sg_io_request(12, Some(512), Some(512)),
        Err(SmartError::PreconditionViolation)
    );
    assert_eq!(transfer_of(Some(1), Some(2)), Err(SmartError::PreconditionViolation));
}

#[test]
fn request_headers() {
    let d = Smart::from_fd(3, 0, BLOCK_MODE).unwrap();
    let h = d.sg_io_request(12, None, Some(512)).unwrap();
    assert_eq!(h.interface_id, 'S' as i32);
    assert_eq!(h.cmd_len, 12);
    assert_eq!(h.mx_sb_len as usize, SENSE_LEN);
    assert_eq!(h.dxfer_direction, SG_DXFER_FROM_DEV);
    assert_eq!(h.dxfer_len, 512);
    let h = d.sg_io_request(16, Some(100), None).unwrap();
    assert_eq!(h.cmd_len, 16);
    assert_eq!(h.dxfer_direction, SG_DXFER_TO_DEV);
    assert_eq!(h.dxfer_len, 100);
    let h = d.sg_io_request(12, None, None).unwrap();
    assert_eq!(h.dxfer_direction, SG_DXFER_NONE);
    assert_eq!(h.dxfer_len, 0);
    assert_eq!(d.sg_io_request(256, None, None), Err(SmartError::PreconditionViolation));
    assert_eq!(transfer_of(None, Some(7)), Ok(Transfer::FromDevice(7)));
    assert_eq!(transfer_of(None, None), Ok(Transfer::NoData));
}

#[test]
fn open_outcome() {
    assert_eq!(
        Smart::from_fd(-1, 13, 0).err(),
        Some(SmartError::OpenFailure { errno: 13 })
    );
    assert_eq!(Smart::from_fd(0, 0, BLOCK_MODE).unwrap().fd(), 0);
    assert_eq!(Smart::from_fd(5, 0, BLOCK_MODE).unwrap().fd(), 5);
    // a regular file and a character device are refused
    assert_eq!(
        Smart::from_fd(5, 0, 0o100644).err(),
        Some(SmartError::OpenFailure { errno: ENOTBLK })
    );
    assert_eq!(
        Smart::from_fd(5, 0, 0o020620).err(),
        Some(SmartError::OpenFailure { errno: ENOTBLK })
    );
    assert_eq!(ENOTBLK, 15);
}

#[test]
fn completion_outcome() {
    let d = Smart::from_fd(3, 0, BLOCK_MODE).unwrap();
    let h = SgIoHdr::default();
    let mut sense = [0u8; SENSE_LEN];
    sense[0] = 0x72;
    sense[8] = 0x09;
    assert_eq!(
        d.sg_io_completion(-1, 5, h, &sense),
        Err(SmartError::TransportFailure { errno: 5 })
    );
    assert_eq!(d.sg_io_completion(0, 0, h, &sense), Ok((h, sense)));
    let bad = SgIoHdr { status: 2, host_status: 0, driver_status: 8, ..h };
    assert_eq!(
        d.sg_io_completion(0, 0, bad, &sense),
        Err(SmartError::DeviceStatusFailure { status: 2, host_status: 0, driver_status: 8, sense })
    );
    let host = SgIoHdr { host_status: 1, ..h };
    assert!(matches!(
        d.sg_io_completion(0, 0, host, &sense),
        Err(SmartError::DeviceStatusFailure { host_status: 1, .. })
    ));
}

#[test]
fn smart_outcome_decodes_or_fails() {
    let d = Smart::from_fd(3, 0, BLOCK_MODE).unwrap();
    let h = SgIoHdr::default();
    let sense = [0u8; SENSE_LEN];
    let rep = d.smart_outcome(0, 0, h, &sense, &crafted()).unwrap();
    assert_eq!(rep.attributes[0].id, 5);
    assert_eq!(
        d.smart_outcome(0, 0, h, &sense, &[0u8; 10]),
        Err(SmartError::Parse(ParseFailure::Truncated { len: 10 }))
    );
    assert_eq!(
        d.smart_outcome(-1, 19, h, &sense, &crafted()),
        Err(SmartError::TransportFailure { errno: 19 })
    );
    let bad = SgIoHdr { status: 2, ..h };
    assert!(matches!(
        d.smart_outcome(0, 0, bad, &sense, &crafted()),
        Err(SmartError::DeviceStatusFailure { status: 2, .. })
    ));
}
