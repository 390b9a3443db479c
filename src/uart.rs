//! The head of a frame on the serial link: a two-byte mark, then the
//! fields in little-endian order.
use vstd::prelude::*;

verus! {

/// Mark that every serial frame starts with ("HW").
pub const PACKET_FLAG: [u8; 2] = [72u8, 87u8];

/// Size of a serialized head.
pub const UART_HEAD_SIZE: usize = 24;

#[derive(Clone, Copy, Debug)]
pub struct UartHead {
    pub flag: [u8; 2],
    pub option: u16,
    pub session_id: u32,
    pub data_size: u32,
    pub package_index: u32,
    pub data_checksum: u32,
    pub head_checksum: u32,
}

pub open spec fn le16(x: u16) -> Seq<u8> {
    seq![(x & 0xffu16) as u8, (x >> 8u16) as u8]
}

pub open spec fn le32(x: u32) -> Seq<u8> {
    seq![(x & 0xffu32) as u8, ((x >> 8u32) & 0xffu32) as u8, ((x >> 16u32) & 0xffu32) as u8, (x >> 24u32) as u8]
}

pub open spec fn read_le16(b: Seq<u8>, at: int) -> u16 {
    ((b[at] as u16) | ((b[at + 1] as u16) << 8u16)) as u16
}

pub open spec fn read_le32(b: Seq<u8>, at: int) -> u32 {
    (b[at] as u32) | ((b[at + 1] as u32) << 8u32) | ((b[at + 2] as u32) << 16u32) | ((b[at + 3] as u32) << 24u32)
}

/// The bytes of a head.
pub open spec fn head_bytes(h: UartHead) -> Seq<u8> {
    seq![h.flag[0], h.flag[1]] + le16(h.option) + le32(h.session_id) + le32(h.data_size) + le32(
        h.package_index,
    ) + le32(h.data_checksum) + le32(h.head_checksum)
}

/// The head that 24 bytes hold.
pub open spec fn head_of(b: Seq<u8>) -> UartHead {
    UartHead {
        flag: [b[0], b[1]],
        option: read_le16(b, 2),
        session_id: read_le32(b, 4),
        data_size: read_le32(b, 8),
        package_index: read_le32(b, 12),
        data_checksum: read_le32(b, 16),
        head_checksum: read_le32(b, 20),
    }
}

fn push_le32(v: &mut Vec<u8>, x: u32)
    ensures
        final(v)@ == old(v)@ + le32(x),
{
    v.push((x & 0xffu32) as u8);
    v.push(((x >> 8u32) & 0xffu32) as u8);
    v.push(((x >> 16u32) & 0xffu32) as u8);
    v.push((x >> 24u32) as u8);
    assert(v@ =~= old(v)@ + le32(x));
}

fn read32(b: &[u8], at: usize) -> (r: u32)
    requires
        at + 4 <= b@.len(),
    ensures
        r == read_le32(b@, at as int),
{
    (b[at] as u32) | ((b[at + 1] as u32) << 8u32) | ((b[at + 2] as u32) << 16u32) | ((b[at + 3]
        as u32) << 24u32)
}

impl UartHead {
    /// The head in its 24-byte form.
    pub fn serialize(&self) -> (r: Vec<u8>)
        ensures
            r@ == head_bytes(*self),
    {
        let mut v: Vec<u8> = Vec::new();
        v.push(self.flag[0]);
        v.push(self.flag[1]);
        v.push((self.option & 0xffu16) as u8);
        v.push((self.option >> 8u16) as u8);
        assert(v@ =~= seq![self.flag[0], self.flag[1]] + le16(self.option));
        push_le32(&mut v, self.session_id);
        push_le32(&mut v, self.data_size);
        push_le32(&mut v, self.package_index);
        push_le32(&mut v, self.data_checksum);
        push_le32(&mut v, self.head_checksum);
        v
    }

    /// Reads a head from its 24-byte form; `None` when `buf` is shorter.
    pub fn parse(buf: &[u8]) -> (r: Option<UartHead>)
        ensures
            r is Some <==> buf@.len() >= 24,
            r is Some ==> r->0 == head_of(buf@),
    {
        if buf.len() < UART_HEAD_SIZE {
            return None;
        }
        Some(
            UartHead {
                flag: [buf[0], buf[1]],
                option: ((buf[2] as u16) | ((buf[3] as u16) << 8u16)) as u16,
                session_id: read32(buf, 4),
                data_size: read32(buf, 8),
                package_index: read32(buf, 12),
                data_checksum: read32(buf, 16),
                head_checksum: read32(buf, 20),
            },
        )
    }
}

/// The head of a frame of `length` payload bytes (counted modulo 2^32),
/// without checksums.
pub fn build_header_obj(session_id: u32, option: u16, length: usize, package_index: u32) -> (r:
    UartHead)
    ensures
        r == (UartHead {
            flag: PACKET_FLAG,
            option,
            session_id,
            data_size: (length as int % 0x1_0000_0000) as u32,
            package_index,
            data_checksum: 0,
            head_checksum: 0,
        }),
{
    let data_size = ((length as u64) % 0x1_0000_0000u64) as u32;
    UartHead {
        flag: PACKET_FLAG,
        option,
        session_id,
        data_size,
        package_index,
        data_checksum: 0,
        head_checksum: 0,
    }
}

/// The serialized head of a frame of `length` payload bytes.
pub fn build_header(session_id: u32, option: u16, length: usize, package_index: u32) -> (r: Vec<u8>)
    ensures
        r@ == head_bytes(
            UartHead {
                flag: PACKET_FLAG,
                option,
                session_id,
                data_size: (length as int % 0x1_0000_0000) as u32,
                package_index,
                data_checksum: 0,
                head_checksum: 0,
            },
        ),
{
    build_header_obj(session_id, option, length, package_index).serialize()
}

/// Why a frame head was refused.
#[derive(Clone, Copy, Debug, PartialEq, Eq, Structural)]
pub enum UartError {
    /// Fewer bytes than a head.
    Short,
    /// The frame does not start with the packet mark.
    BadFlag,
}

/// Reading side of a serial link.
pub struct UartReader {
    pub fd: i32,
    /// The head of the frame being read, once checked.
    pub head: Option<UartHead>,
}

/// Writing side of a serial link.
pub struct UartWriter {
    pub fd: i32,
}

impl UartReader {
    /// Checks the head read from the link: its size and mark. On success it
    /// becomes the current head, and its payload size, package index and
    /// session id are returned.
    pub fn check_protocol_head(&mut self, buf: &[u8]) -> (r: Result<(u32, u32, u32), UartError>)
        ensures
            final(self).fd == old(self).fd,
            buf@.len() < 24 ==> r == Err::<(u32, u32, u32), UartError>(UartError::Short) && final(self).head == old(self).head,
            buf@.len() >= 24 && (buf@[0] != PACKET_FLAG[0] || buf@[1] != PACKET_FLAG[1]) ==> r
                == Err::<(u32, u32, u32), UartError>(UartError::BadFlag) && final(self).head == old(self).head,
            buf@.len() >= 24 && buf@[0] == PACKET_FLAG[0] && buf@[1] == PACKET_FLAG[1] ==> {
                let h = head_of(buf@);
                &&& r == Ok::<(u32, u32, u32), UartError>((h.data_size, h.package_index, h.session_id))
                &&& final(self).head == Some(h)
            },
    {
        if buf.len() < UART_HEAD_SIZE {
            return Err(UartError::Short);
        }
        if buf[0] != PACKET_FLAG[0] || buf[1] != PACKET_FLAG[1] {
            return Err(UartError::BadFlag);
        }
        match UartHead::parse(buf) {
            Some(h) => {
                self.head = Some(h);
                Ok((h.data_size, h.package_index, h.session_id))
            },
            None => Err(UartError::Short),
        }
    }
}

} // verus!
