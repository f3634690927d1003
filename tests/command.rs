use smartinfo::ffi::{
    build_ata_passthrough12, build_ata_passthrough16, AtaCmd, Protocol, SgIoHdr, SmartSubCmd,
};
use smartinfo::smart::smart_read_cdb;

const CMDS: [AtaCmd; 4] = [
    AtaCmd::CheckPowerMode,
    AtaCmd::ReadLogExt,
    AtaCmd::ReadLogExtDma,
    AtaCmd::SmartFunctionSet,
];

const PROTOCOLS: [Protocol; 6] = [
    Protocol::InDma,
    Protocol::OutDma,
    Protocol::NonData,
    Protocol::PioIn,
    Protocol::PioOut,
    Protocol::Dma,
];

#[test]
fn fixed_bytes_for_every_command_and_protocol() {
    for cmd in CMDS {
        for protocol in PROTOCOLS {
            let cdb = build_ata_passthrough12(cmd, protocol, 0xffff, 0x1234, 0xabcd, 0x5678);
            assert_eq!(cdb.len(), 12);
            assert_eq!(cdb[0], 0xa1);
            assert_eq!(cdb[8], 0xa0);
            assert_eq!(cdb[9], cmd.code());
            assert_eq!(cdb[1], protocol.code());
            assert_eq!(cdb[10], 0);
            assert_eq!(cdb[11], 0);
        }
    }
}

#[test]
fn direction_and_check_condition_bits() {
    for cmd in CMDS {
        for protocol in PROTOCOLS {
            let cdb = build_ata_passthrough12(cmd, protocol, 0, 0, 0, 0);
            assert_eq!((cdb[2] >> 3) & 1, protocol.t_dir());
            assert_eq!((cdb[2] >> 5) & 1 == 1, cmd.ck_cond());
            assert_eq!(cdb[2] & 0b111, 0b010);
            assert_eq!(cdb[2] & 0xd7, 0x02);
        }
    }
    let cdb = build_ata_passthrough12(AtaCmd::CheckPowerMode, Protocol::NonData, 0, 0, 0, 0);
    assert_eq!((cdb[2] >> 5) & 1, 1);
    let cdb = build_ata_passthrough12(AtaCmd::SmartFunctionSet, Protocol::PioIn, 0, 0, 0, 0);
    assert_eq!((cdb[2] >> 5) & 1, 0);
}

#[test]
fn smart_read_reference_block() {
    let cdb = build_ata_passthrough12(AtaCmd::SmartFunctionSet, Protocol::PioIn, 0xd0, 1, 0, 0);
    assert_eq!(cdb, [0xa1, 0x08, 0x0a, 0xd0, 0x01, 0x00, 0x00, 0x00, 0xa0, 0xb0, 0x00, 0x00]);
}

#[test]
fn smart_read_command_carries_signature() {
    assert_eq!(
        smart_read_cdb(),
        [0xa1, 0x08, 0x0a, 0xd0, 0x01, 0x00, 0x4f, 0xc2, 0xa0, 0xb0, 0x00, 0x00]
    );
}

#[test]
fn registers_are_truncated_to_low_byte() {
    let cdb = build_ata_passthrough12(AtaCmd::ReadLogExt, Protocol::Dma, 0x1234, 0x5678, 0x9abc, 0xdef0);
    assert_eq!(&cdb[3..8], &[0x34, 0x78, 0xbc, 0xf0, 0xde]);
    assert_eq!(cdb[2], 0x02);
    assert_eq!(cdb[9], 0x2f);
}

#[test]
fn check_power_mode_flags_byte() {
    let cdb = build_ata_passthrough12(AtaCmd::CheckPowerMode, Protocol::NonData, 0, 0, 0, 0);
    assert_eq!(cdb[1], 0x06);
    assert_eq!(cdb[2], 0x22);
    assert_eq!(cdb[9], 0xe5);
}

#[test]
fn passthrough16_layout() {
    let cdb = build_ata_passthrough16(
        AtaCmd::ReadLogExtDma,
        Protocol::InDma,
        0x0102,
        0x0304,
        0x0506,
        0x0a09_0807,
    );
    assert_eq!(
        cdb,
        [
            0x85, 0x15, 0x0e, 0x01, 0x02, 0x03, 0x04, 0x05, 0x06, 0x08, 0x07, 0x0a, 0x09, 0xa0,
            0x47, 0x00
        ]
    );
}

#[test]
fn command_codes() {
    assert_eq!(AtaCmd::CheckPowerMode.code(), 0xe5);
    assert_eq!(AtaCmd::ReadLogExt.code(), 0x2f);
    assert_eq!(AtaCmd::ReadLogExtDma.code(), 0x47);
    assert_eq!(AtaCmd::SmartFunctionSet.code(), 0xb0);
    assert!(AtaCmd::CheckPowerMode.ck_cond());
    assert!(!AtaCmd::ReadLogExt.ck_cond());
    assert!(!AtaCmd::ReadLogExtDma.ck_cond());
    assert!(!AtaCmd::SmartFunctionSet.ck_cond());
    assert_eq!(SmartSubCmd::ReadAttr.code(), 0xd0);
    assert_eq!(SmartSubCmd::ReadThresholds.code(), 0xd1);
    assert_eq!(SmartSubCmd::ReadLogSector.code(), 0xd5);
}

#[test]
fn protocol_codes_and_directions() {
    let expected: [(u8, u8); 6] = [(20, 1), (22, 0), (6, 0), (8, 1), (10, 0), (12, 0)];
    for (protocol, (code, dir)) in PROTOCOLS.iter().zip(expected) {
        assert_eq!(protocol.code(), code);
        assert_eq!(protocol.t_dir(), dir);
    }
}

#[test]
fn default_header() {
    let h = SgIoHdr::default();
    assert_eq!(h.interface_id, 'S' as i32);
    assert_eq!(h.dxfer_direction, 0);
    assert_eq!(h.cmd_len, 0);
    assert_eq!(h.dxfer_len, 0);
    assert_eq!(h.status, 0);
}

#[test]
fn header_image_layout() {
    let h = SgIoHdr {
        interface_id: 'S' as i32,
        dxfer_direction: -3,
        cmd_len: 12,
        mx_sb_len: 32,
        iovec_count: 0x0102,
        dxfer_len: 512,
        timeout: 0x01020304,
        flags: 7,
        pack_id: -1,
        status: 2,
        masked_status: 1,
        msg_status: 9,
        sb_len_wr: 18,
        host_status: 0x0a0b,
        driver_status: 8,
        resid: -2,
        duration: 30,
        info: 1,
    };
    let img = h.to_image(0x1122_3344_5566_7788, 0x10, 0xffff_ffff_ffff_fff0);
    assert_eq!(img.len(), 88);
    assert_eq!(&img[0..4], &[0x53, 0, 0, 0]);
    assert_eq!(&img[4..8], &[0xfd, 0xff, 0xff, 0xff]);
    assert_eq!(&img[8..12], &[12, 32, 0x02, 0x01]);
    assert_eq!(&img[12..16], &[0, 2, 0, 0]);
    assert_eq!(&img[16..24], &0x1122_3344_5566_7788u64.to_le_bytes());
    assert_eq!(&img[24..32], &0x10u64.to_le_bytes());
    assert_eq!(&img[32..40], &0xffff_ffff_ffff_fff0u64.to_le_bytes());
    assert_eq!(&img[40..44], &[4, 3, 2, 1]);
    assert_eq!(&img[44..48], &[7, 0, 0, 0]);
    assert_eq!(&img[48..52], &[0xff; 4]);
    assert_eq!(&img[52..64], &[0; 12]);
    assert_eq!(&img[64..72], &[2, 1, 9, 18, 0x0b, 0x0a, 8, 0]);
    assert_eq!(&img[72..76], &[0xfe, 0xff, 0xff, 0xff]);
    assert_eq!(&img[76..84], &[30, 0, 0, 0, 1, 0, 0, 0]);
    assert_eq!(&img[84..88], &[0; 4]);
    assert_eq!(SgIoHdr::from_image_bytes(&img), Some(h));
    assert_eq!(SgIoHdr::from_image_bytes(&img[..87]), None);
}

#[test]
fn header_image_matches_native_structure() {
    assert_eq!(smartinfo::ffi::SG_IO_HDR_LEN, 88);
    let h = SgIoHdr::default();
    let img = h.to_image(0, 0, 0);
    let mut expected = vec![0u8; 88];
    expected[0] = b'S';
    assert_eq!(img, expected);
}
