//! Command encoder: ATA PASS-THROUGH command descriptor blocks, and the
//! SCSI-generic request header.
use vstd::prelude::*;

use crate::le::{
    le_bytes, le_seq, lemma_le_bytes_bound, lemma_le_bytes_ext, lemma_le_round_trip, pow256,
    push_le, read_le,
};

verus! {

/// Length of an ATA PASS-THROUGH(16) command descriptor block.
pub const ATA_16_LEN: usize = 16;

/// Length of an ATA PASS-THROUGH(12) command descriptor block.
pub const ATA_12_LEN: usize = 12;

/// SCSI operation code of ATA PASS-THROUGH(16).
pub const ATA_16: u8 = 0x85;

/// SCSI operation code of ATA PASS-THROUGH(12).
pub const ATA_12: u8 = 0xa1;

/// Device/head register value written into every descriptor block.
pub const ATA_DEVICE: u8 = 0xa0;

/// ATA commands that this library issues.
#[derive(Debug, Clone, Copy, PartialEq, Eq, Structural)]
pub enum AtaCmd {
    CheckPowerMode,
    ReadLogExt,
    ReadLogExtDma,
    SmartFunctionSet,
}

impl AtaCmd {
    /// The ATA command register value.
    pub open spec fn spec_code(&self) -> u8 {
        match self {
            AtaCmd::CheckPowerMode => 0xe5,
            AtaCmd::ReadLogExt => 0x2f,
            AtaCmd::ReadLogExtDma => 0x47,
            AtaCmd::SmartFunctionSet => 0xb0,
        }
    }

    /// Whether the device reports completion through the sense buffer.
    pub open spec fn spec_ck_cond(&self) -> bool {
        match self {
            AtaCmd::CheckPowerMode => true,
            _ => false,
        }
    }

    /// The ATA command register value.
    #[verifier::when_used_as_spec(spec_code)]
    pub fn code(&self) -> (r: u8)
        ensures
            r == self.spec_code(),
    {
        match self {
            AtaCmd::CheckPowerMode => 0xe5,
            AtaCmd::ReadLogExt => 0x2f,
            AtaCmd::ReadLogExtDma => 0x47,
            AtaCmd::SmartFunctionSet => 0xb0,
        }
    }

    /// Whether the check-condition bit is set for this command.
    #[verifier::when_used_as_spec(spec_ck_cond)]
    pub fn ck_cond(&self) -> (r: bool)
        ensures
            r == self.spec_ck_cond(),
    {
        match self {
            AtaCmd::CheckPowerMode => true,
            AtaCmd::ReadLogExt => false,
            AtaCmd::ReadLogExtDma => false,
            AtaCmd::SmartFunctionSet => false,
        }
    }
}

/// Sub-commands of the SMART feature set, carried in the feature register.
#[derive(Debug, Clone, Copy, PartialEq, Eq, Structural)]
pub enum SmartSubCmd {
    ReadAttr,
    ReadThresholds,
    ReadLogSector,
}

impl SmartSubCmd {
    /// The feature register value.
    pub open spec fn spec_code(&self) -> u8 {
        match self {
            SmartSubCmd::ReadAttr => 0xd0,
            SmartSubCmd::ReadThresholds => 0xd1,
            SmartSubCmd::ReadLogSector => 0xd5,
        }
    }

    /// The feature register value.
    #[verifier::when_used_as_spec(spec_code)]
    pub fn code(&self) -> (r: u8)
        ensures
            r == self.spec_code(),
    {
        match self {
            SmartSubCmd::ReadAttr => 0xd0,
            SmartSubCmd::ReadThresholds => 0xd1,
            SmartSubCmd::ReadLogSector => 0xd5,
        }
    }
}

/// ATA transfer protocols.
#[derive(Debug, Clone, Copy, PartialEq, Eq, Structural)]
pub enum Protocol {
    InDma,
    OutDma,
    NonData,
    PioIn,
    PioOut,
    Dma,
}

impl Protocol {
    /// The protocol field as it stands in byte 1 (shifted past the extend bit).
    pub open spec fn spec_code(&self) -> u8 {
        match self {
            Protocol::InDma => 20,
            Protocol::OutDma => 22,
            Protocol::NonData => 6,
            Protocol::PioIn => 8,
            Protocol::PioOut => 10,
            Protocol::Dma => 12,
        }
    }

    /// Transfer direction: 1 from the device to the host, 0 otherwise.
    pub open spec fn spec_t_dir(&self) -> u8 {
        match self {
            Protocol::InDma => 1,
            Protocol::PioIn => 1,
            _ => 0,
        }
    }

    /// The protocol field as it stands in byte 1.
    #[verifier::when_used_as_spec(spec_code)]
    pub fn code(&self) -> (r: u8)
        ensures
            r == self.spec_code(),
    {
        match self {
            Protocol::InDma => 20,
            Protocol::OutDma => 22,
            Protocol::NonData => 6,
            Protocol::PioIn => 8,
            Protocol::PioOut => 10,
            Protocol::Dma => 12,
        }
    }

    /// Transfer direction flag.
    #[verifier::when_used_as_spec(spec_t_dir)]
    pub fn t_dir(&self) -> (r: u8)
        ensures
            r == self.spec_t_dir(),
            r <= 1,
    {
        match self {
            Protocol::InDma => 1,
            Protocol::OutDma => 0,
            Protocol::NonData => 0,
            Protocol::PioIn => 1,
            Protocol::PioOut => 0,
            Protocol::Dma => 0,
        }
    }
}

/// The low eight bits of `x`.
pub open spec fn lo8(x: int) -> u8 {
    (x % 256) as u8
}

/// The flags byte: off_line 0, ck_cond (bit 5), t_dir (bit 3), byt_blok
/// (bit 2) and t_length 2 (bits 1..0), the sector count register holding
/// the length.
pub open spec fn flags_byte(cmd: AtaCmd, protocol: Protocol, byt_blok: bool) -> u8 {
    ((if cmd.spec_ck_cond() { 32int } else { 0int }) + 8 * protocol.spec_t_dir() + (if byt_blok {
        4int
    } else {
        0int
    }) + 2) as u8
}

/// The twelve bytes of ATA PASS-THROUGH(12) for the given registers.
pub open spec fn cdb12(
    cmd: AtaCmd,
    protocol: Protocol,
    feature: u16,
    sector_count: u16,
    sector_number: u16,
    cylinder: u16,
) -> Seq<u8> {
    seq![
        ATA_12,
        protocol.spec_code(),
        flags_byte(cmd, protocol, false),
        lo8(feature as int),
        lo8(sector_count as int),
        lo8(sector_number as int),
        lo8(cylinder as int),
        lo8(cylinder as int / 256),
        ATA_DEVICE,
        cmd.spec_code(),
        0u8,
        0u8,
    ]
}

/// The sixteen bytes of ATA PASS-THROUGH(16) for the given registers.
pub open spec fn cdb16(
    cmd: AtaCmd,
    protocol: Protocol,
    feature: u16,
    sector_count: u16,
    sector_number: u16,
    cylinder: u32,
) -> Seq<u8> {
    seq![
        ATA_16,
        (protocol.spec_code() + 1) as u8,
        flags_byte(cmd, protocol, true),
        lo8(feature as int / 256),
        lo8(feature as int),
        lo8(sector_count as int / 256),
        lo8(sector_count as int),
        lo8(sector_number as int / 256),
        lo8(sector_number as int),
        lo8(cylinder as int / 256),
        lo8(cylinder as int),
        lo8(cylinder as int / 0x100_0000),
        lo8(cylinder as int / 0x1_0000),
        ATA_DEVICE,
        cmd.spec_code(),
        0u8,
    ]
}

/// Bit `n` of a byte.
pub open spec fn bit(b: u8, n: u8) -> u8 {
    ((b as int / pow2_u8(n)) % 2) as u8
}

/// Two to the power `n`, for the bit positions of a byte.
pub open spec fn pow2_u8(n: u8) -> int
    decreases n,
{
    if n == 0 {
        1
    } else {
        2 * pow2_u8((n - 1) as u8)
    }
}

/// Bits 5, 3 and 2 of the flags byte are the command's check-condition
/// policy, the protocol's transfer direction and the byte-block choice; bits
/// 1..0 hold 2.
pub proof fn lemma_flags_bits(cmd: AtaCmd, protocol: Protocol, byt_blok: bool)
    ensures
        bit(flags_byte(cmd, protocol, byt_blok), 3) == protocol.spec_t_dir(),
        (bit(flags_byte(cmd, protocol, byt_blok), 5) == 1) == cmd.spec_ck_cond(),
        (bit(flags_byte(cmd, protocol, byt_blok), 2) == 1) == byt_blok,
        bit(flags_byte(cmd, protocol, byt_blok), 1) == 1,
        bit(flags_byte(cmd, protocol, byt_blok), 0) == 0,
        bit(flags_byte(cmd, protocol, byt_blok), 4) == 0,
        bit(flags_byte(cmd, protocol, byt_blok), 6) == 0,
        bit(flags_byte(cmd, protocol, byt_blok), 7) == 0,
{
    reveal_with_fuel(pow2_u8, 8);
    assert(pow2_u8(0) == 1 && pow2_u8(1) == 2 && pow2_u8(2) == 4 && pow2_u8(3) == 8);
    assert(pow2_u8(4) == 16 && pow2_u8(5) == 32 && pow2_u8(6) == 64 && pow2_u8(7) == 128);
    let f = flags_byte(cmd, protocol, byt_blok);
    let b: int = if byt_blok { 4 } else { 0 };
    if cmd.spec_ck_cond() {
        if protocol.spec_t_dir() == 1 {
            assert(f == 42 + b);
        } else {
            assert(f == 34 + b);
        }
    } else {
        if protocol.spec_t_dir() == 1 {
            assert(f == 10 + b);
        } else {
            assert(f == 2 + b);
        }
    }
}

/// In every ATA PASS-THROUGH(12) block, bit 3 of the flags byte is the
/// protocol's transfer direction; bit 5 is set for CHECK POWER MODE and clear
/// for the SMART feature set; bits 2..0 are 0b010.
pub proof fn lemma_cdb12_flags(
    cmd: AtaCmd,
    protocol: Protocol,
    feature: u16,
    sector_count: u16,
    sector_number: u16,
    cylinder: u16,
)
    ensures
        ({
            let c = cdb12(cmd, protocol, feature, sector_count, sector_number, cylinder);
            &&& bit(c[2], 3) == protocol.spec_t_dir()
            &&& cmd == AtaCmd::CheckPowerMode ==> bit(c[2], 5) == 1
            &&& cmd == AtaCmd::SmartFunctionSet ==> bit(c[2], 5) == 0
            &&& c[2] % 8 == 2
        }),
{
    lemma_flags_bits(cmd, protocol, false);
    assert(bit(flags_byte(cmd, protocol, false), 5) <= 1);
}

fn flags(cmd: AtaCmd, protocol: Protocol, byt_blok: bool) -> (r: u8)
    ensures
        r == flags_byte(cmd, protocol, byt_blok),
{
    let ck: u8 = if cmd.ck_cond() { 32 } else { 0 };
    let bb: u8 = if byt_blok { 4 } else { 0 };
    ck + 8 * protocol.t_dir() + bb + 2
}

/// Builds ATA PASS-THROUGH(12), the transfer length in the sector count
/// register (byt_blok clear). Only the low byte of `feature`,
/// `sector_count` and `sector_number` fits; `cylinder` fills LBA mid (low
/// byte) and LBA high (high byte).
pub fn build_ata_passthrough12(
    cmd: AtaCmd,
    protocol: Protocol,
    feature: u16,
    sector_count: u16,
    sector_number: u16,
    cylinder: u16,
) -> (r: [u8; ATA_12_LEN])
    ensures
        r@ == cdb12(cmd, protocol, feature, sector_count, sector_number, cylinder),
        r@.len() == 12,
        r@[0] == 0xa1,
        r@[8] == 0xa0,
        r@[9] == cmd.spec_code(),
        bit(r@[2], 3) == protocol.spec_t_dir(),
        (bit(r@[2], 5) == 1) == cmd.spec_ck_cond(),
        r@[2] % 8 == 2,
{
    proof {
        lemma_flags_bits(cmd, protocol, false);
    }
    let r: [u8; ATA_12_LEN] = [
        ATA_12,
        protocol.code(),
        flags(cmd, protocol, false),
        (feature % 256) as u8,
        (sector_count % 256) as u8,
        (sector_number % 256) as u8,
        (cylinder % 256) as u8,
        (cylinder / 256) as u8,
        ATA_DEVICE,
        cmd.code(),
        0,
        0,
    ];
    assert(r@ =~= cdb12(cmd, protocol, feature, sector_count, sector_number, cylinder));
    r
}

/// Builds ATA PASS-THROUGH(16) with the extend bit set and the transfer
/// length counted in blocks (byt_blok set): every register is
/// sixteen bits wide, high byte first; `cylinder` fills LBA mid (low half)
/// and LBA high (high half).
pub fn build_ata_passthrough16(
    cmd: AtaCmd,
    protocol: Protocol,
    feature: u16,
    sector_count: u16,
    sector_number: u16,
    cylinder: u32,
) -> (r: [u8; ATA_16_LEN])
    ensures
        r@ == cdb16(cmd, protocol, feature, sector_count, sector_number, cylinder),
        r@.len() == 16,
        r@[0] == 0x85,
        r@[13] == 0xa0,
        r@[14] == cmd.spec_code(),
        bit(r@[2], 3) == protocol.spec_t_dir(),
        (bit(r@[2], 5) == 1) == cmd.spec_ck_cond(),
{
    proof {
        lemma_flags_bits(cmd, protocol, true);
    }
    let r: [u8; ATA_16_LEN] = [
        ATA_16,
        protocol.code() + 1,
        flags(cmd, protocol, true),
        (feature / 256) as u8,
        (feature % 256) as u8,
        (sector_count / 256) as u8,
        (sector_count % 256) as u8,
        (sector_number / 256) as u8,
        (sector_number % 256) as u8,
        (cylinder / 256 % 256) as u8,
        (cylinder % 256) as u8,
        (cylinder / 0x100_0000 % 256) as u8,
        (cylinder / 0x1_0000 % 256) as u8,
        ATA_DEVICE,
        cmd.code(),
        0,
    ];
    assert(r@ =~= cdb16(cmd, protocol, feature, sector_count, sector_number, cylinder));
    r
}

/// Request number of the SCSI-generic exchange.
pub const SG_IO: u64 = 0x2285;

/// No data moves.
pub const SG_DXFER_NONE: i32 = -1;

/// Data moves from the host to the device.
pub const SG_DXFER_TO_DEV: i32 = -2;

/// Data moves from the device to the host.
pub const SG_DXFER_FROM_DEV: i32 = -3;

/// Interface identifier of the SCSI-generic version 3 header (`'S'`).
pub const SG_INTERFACE_ID: i32 = 83;

/// The value fields of the kernel's SCSI-generic request header, in the
/// order of the native structure. The three buffer addresses and the user
/// pointer are not values of the request: whoever issues it sets them from
/// the buffers that it lends for the one exchange.
#[derive(Debug, Clone, Copy, PartialEq, Eq, Structural)]
pub struct SgIoHdr {
    pub interface_id: i32,
    pub dxfer_direction: i32,
    pub cmd_len: u8,
    pub mx_sb_len: u8,
    pub iovec_count: u16,
    pub dxfer_len: u32,
    pub timeout: u32,
    pub flags: u32,
    pub pack_id: i32,
    pub status: u8,
    pub masked_status: u8,
    pub msg_status: u8,
    pub sb_len_wr: u8,
    pub host_status: u16,
    pub driver_status: u16,
    pub resid: i32,
    pub duration: u32,
    pub info: u32,
}

impl SgIoHdr {
    /// A header with the interface identifier set and every other field zero.
    pub open spec fn initial() -> SgIoHdr {
        SgIoHdr {
            interface_id: SG_INTERFACE_ID,
            dxfer_direction: 0,
            cmd_len: 0,
            mx_sb_len: 0,
            iovec_count: 0,
            dxfer_len: 0,
            timeout: 0,
            flags: 0,
            pack_id: 0,
            status: 0,
            masked_status: 0,
            msg_status: 0,
            sb_len_wr: 0,
            host_status: 0,
            driver_status: 0,
            resid: 0,
            duration: 0,
            info: 0,
        }
    }
}

impl Default for SgIoHdr {
    fn default() -> (r: SgIoHdr)
        ensures
            r == SgIoHdr::initial(),
    {
        SgIoHdr {
            interface_id: SG_INTERFACE_ID,
            dxfer_direction: 0,
            cmd_len: 0,
            mx_sb_len: 0,
            iovec_count: 0,
            dxfer_len: 0,
            timeout: 0,
            flags: 0,
            pack_id: 0,
            status: 0,
            masked_status: 0,
            msg_status: 0,
            sb_len_wr: 0,
            host_status: 0,
            driver_status: 0,
            resid: 0,
            duration: 0,
            info: 0,
        }
    }
}

/// Size of the native request header on 64-bit Linux.
pub const SG_IO_HDR_LEN: usize = 88;

/// The bits of a 32-bit signed value, read as an unsigned number.
pub open spec fn bits32(x: i32) -> int {
    if x < 0 {
        x + 0x1_0000_0000
    } else {
        x as int
    }
}

/// The 32-bit signed value whose bits, read as an unsigned number, are `v`.
pub open spec fn signed32(v: int) -> i32 {
    if v >= 0x8000_0000 {
        (v - 0x1_0000_0000) as i32
    } else {
        v as i32
    }
}

impl SgIoHdr {
    /// The bytes of the native header (64-bit Linux, little-endian) that
    /// holds these values and the addresses of the data, command and sense
    /// buffers: every field at its offset in the platform's structure, the
    /// user pointer null and the two paddings zero.
    pub open spec fn image(self, dxferp: u64, cmdp: u64, sbp: u64) -> Seq<u8> {
        le_seq(bits32(self.interface_id), 4) + le_seq(bits32(self.dxfer_direction), 4) + seq![
            self.cmd_len,
            self.mx_sb_len,
        ] + le_seq(self.iovec_count as int, 2) + le_seq(self.dxfer_len as int, 4) + le_seq(
            dxferp as int,
            8,
        ) + le_seq(cmdp as int, 8) + le_seq(sbp as int, 8) + le_seq(self.timeout as int, 4)
            + le_seq(self.flags as int, 4) + le_seq(bits32(self.pack_id), 4) + le_seq(0, 4)
            + le_seq(0, 8) + seq![
            self.status,
            self.masked_status,
            self.msg_status,
            self.sb_len_wr,
        ] + le_seq(self.host_status as int, 2) + le_seq(self.driver_status as int, 2) + le_seq(
            bits32(self.resid),
            4,
        ) + le_seq(self.duration as int, 4) + le_seq(self.info as int, 4) + le_seq(0, 4)
    }

    /// The values held by the native header bytes `b`.
    pub open spec fn from_image(b: Seq<u8>) -> SgIoHdr {
        SgIoHdr {
            interface_id: signed32(le_bytes(b, 0, 4)),
            dxfer_direction: signed32(le_bytes(b, 4, 4)),
            cmd_len: b[8],
            mx_sb_len: b[9],
            iovec_count: le_bytes(b, 10, 2) as u16,
            dxfer_len: le_bytes(b, 12, 4) as u32,
            timeout: le_bytes(b, 40, 4) as u32,
            flags: le_bytes(b, 44, 4) as u32,
            pack_id: signed32(le_bytes(b, 48, 4)),
            status: b[64],
            masked_status: b[65],
            msg_status: b[66],
            sb_len_wr: b[67],
            host_status: le_bytes(b, 68, 2) as u16,
            driver_status: le_bytes(b, 70, 2) as u16,
            resid: signed32(le_bytes(b, 72, 4)),
            duration: le_bytes(b, 76, 4) as u32,
            info: le_bytes(b, 80, 4) as u32,
        }
    }
}

fn bits32_of(x: i32) -> (r: u64)
    ensures
        r == bits32(x),
{
    if x < 0 {
        (x as i64 + 0x1_0000_0000i64) as u64
    } else {
        x as u64
    }
}

fn signed32_of(v: u64) -> (r: i32)
    requires
        v < 0x1_0000_0000,
    ensures
        r == signed32(v as int),
{
    if v >= 0x8000_0000 {
        (v as i64 - 0x1_0000_0000i64) as i32
    } else {
        v as i32
    }
}

impl SgIoHdr {
    /// The native header bytes for these values and the addresses of the
    /// data, command and sense buffers.
    pub fn to_image(&self, dxferp: u64, cmdp: u64, sbp: u64) -> (r: Vec<u8>)
        ensures
            r@ == self.image(dxferp, cmdp, sbp),
            r@.len() == SG_IO_HDR_LEN,
    {
        let mut v: Vec<u8> = Vec::new();
        push_le(&mut v, bits32_of(self.interface_id), 4);
        push_le(&mut v, bits32_of(self.dxfer_direction), 4);
        let ghost before = v@;
        v.push(self.cmd_len);
        v.push(self.mx_sb_len);
        assert(v@ =~= before + seq![self.cmd_len, self.mx_sb_len]);
        push_le(&mut v, self.iovec_count as u64, 2);
        push_le(&mut v, self.dxfer_len as u64, 4);
        push_le(&mut v, dxferp, 8);
        push_le(&mut v, cmdp, 8);
        push_le(&mut v, sbp, 8);
        push_le(&mut v, self.timeout as u64, 4);
        push_le(&mut v, self.flags as u64, 4);
        push_le(&mut v, bits32_of(self.pack_id), 4);
        push_le(&mut v, 0, 4);
        push_le(&mut v, 0, 8);
        let ghost before = v@;
        v.push(self.status);
        v.push(self.masked_status);
        v.push(self.msg_status);
        v.push(self.sb_len_wr);
        assert(v@ =~= before + seq![
            self.status,
            self.masked_status,
            self.msg_status,
            self.sb_len_wr,
        ]);
        push_le(&mut v, self.host_status as u64, 2);
        push_le(&mut v, self.driver_status as u64, 2);
        push_le(&mut v, bits32_of(self.resid), 4);
        push_le(&mut v, self.duration as u64, 4);
        push_le(&mut v, self.info as u64, 4);
        push_le(&mut v, 0, 4);
        proof {
            lemma_image_round_trip(*self, dxferp, cmdp, sbp);
        }
        v
    }

    /// The values held by native header bytes, or `None` if `b` is not a
    /// header's size.
    pub fn from_image_bytes(b: &[u8]) -> (r: Option<SgIoHdr>)
        ensures
            r is Some <==> b@.len() == SG_IO_HDR_LEN,
            r is Some ==> r->Some_0 == SgIoHdr::from_image(b@),
    {
        if b.len() != SG_IO_HDR_LEN {
            return None;
        }
        proof {
            reveal_with_fuel(pow256, 5);
            lemma_le_bytes_bound(b@, 10, 2);
            lemma_le_bytes_bound(b@, 12, 4);
            lemma_le_bytes_bound(b@, 40, 4);
            lemma_le_bytes_bound(b@, 44, 4);
            lemma_le_bytes_bound(b@, 68, 2);
            lemma_le_bytes_bound(b@, 70, 2);
            lemma_le_bytes_bound(b@, 76, 4);
            lemma_le_bytes_bound(b@, 80, 4);
            lemma_le_bytes_bound(b@, 0, 4);
            lemma_le_bytes_bound(b@, 4, 4);
            lemma_le_bytes_bound(b@, 48, 4);
            lemma_le_bytes_bound(b@, 72, 4);
        }
        Some(
            SgIoHdr {
                interface_id: signed32_of(read_le(b, 0, 4)),
                dxfer_direction: signed32_of(read_le(b, 4, 4)),
                cmd_len: b[8],
                mx_sb_len: b[9],
                iovec_count: read_le(b, 10, 2) as u16,
                dxfer_len: read_le(b, 12, 4) as u32,
                timeout: read_le(b, 40, 4) as u32,
                flags: read_le(b, 44, 4) as u32,
                pack_id: signed32_of(read_le(b, 48, 4)),
                status: b[64],
                masked_status: b[65],
                msg_status: b[66],
                sb_len_wr: b[67],
                host_status: read_le(b, 68, 2) as u16,
                driver_status: read_le(b, 70, 2) as u16,
                resid: signed32_of(read_le(b, 72, 4)),
                duration: read_le(b, 76, 4) as u32,
                info: read_le(b, 80, 4) as u32,
            },
        )
    }
}

proof fn lemma_field(img: Seq<u8>, o: int, x: int, n: nat, part: Seq<u8>)
    requires
        0 <= x < pow256(n),
        part == le_seq(x, n),
        0 <= o,
        o + n <= img.len(),
        forall|i: int| 0 <= i < n ==> #[trigger] img[o + i] == part[i],
    ensures
        le_bytes(img, o, n) == x,
{
    lemma_le_round_trip(x, n);
    lemma_le_bytes_ext(img, o, part, 0, n);
}

/// Reading a native header image back gives the values it was made from,
/// and the three buffer addresses stand at their offsets.
pub proof fn lemma_image_round_trip(h: SgIoHdr, dxferp: u64, cmdp: u64, sbp: u64)
    ensures
        h.image(dxferp, cmdp, sbp).len() == SG_IO_HDR_LEN,
        SgIoHdr::from_image(h.image(dxferp, cmdp, sbp)) == h,
        le_bytes(h.image(dxferp, cmdp, sbp), 16, 8) == dxferp,
        le_bytes(h.image(dxferp, cmdp, sbp), 24, 8) == cmdp,
        le_bytes(h.image(dxferp, cmdp, sbp), 32, 8) == sbp,
{
    reveal_with_fuel(pow256, 9);
    reveal_with_fuel(le_seq, 9);
    let img = h.image(dxferp, cmdp, sbp);
    assert(img.len() == 88);
    lemma_field(img, 0, bits32(h.interface_id), 4, le_seq(bits32(h.interface_id), 4));
    lemma_field(img, 4, bits32(h.dxfer_direction), 4, le_seq(bits32(h.dxfer_direction), 4));
    lemma_field(img, 10, h.iovec_count as int, 2, le_seq(h.iovec_count as int, 2));
    lemma_field(img, 12, h.dxfer_len as int, 4, le_seq(h.dxfer_len as int, 4));
    lemma_field(img, 16, dxferp as int, 8, le_seq(dxferp as int, 8));
    lemma_field(img, 24, cmdp as int, 8, le_seq(cmdp as int, 8));
    lemma_field(img, 32, sbp as int, 8, le_seq(sbp as int, 8));
    lemma_field(img, 40, h.timeout as int, 4, le_seq(h.timeout as int, 4));
    lemma_field(img, 44, h.flags as int, 4, le_seq(h.flags as int, 4));
    lemma_field(img, 48, bits32(h.pack_id), 4, le_seq(bits32(h.pack_id), 4));
    lemma_field(img, 68, h.host_status as int, 2, le_seq(h.host_status as int, 2));
    lemma_field(img, 70, h.driver_status as int, 2, le_seq(h.driver_status as int, 2));
    lemma_field(img, 72, bits32(h.resid), 4, le_seq(bits32(h.resid), 4));
    lemma_field(img, 76, h.duration as int, 4, le_seq(h.duration as int, 4));
    lemma_field(img, 80, h.info as int, 4, le_seq(h.info as int, 4));
    assert(SgIoHdr::from_image(img) == h);
}

} // verus!
