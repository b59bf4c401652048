//! Where a frame is going, or where it came from: a polling address or a
//! unique one, as text and as the bytes of a frame.

use crate::bytes;
use crate::bytes::{from_low, push_low};
use crate::error::HartError;
use crate::frame::Kind;
use crate::text;
use crate::text::{chars_of, cut_at_dashes, read_numeral, write_digits};
use vstd::prelude::*;
use vstd::string::*;

verus! {

/// The primary master's bit in the first address byte.
pub const PRIMARY_MASTER: u8 = 0x80;

/// The burst-mode bit in the first address byte.
pub const BURST: u8 = 0x40;

/// The bits of the first address byte that are the address.
pub const ADDRESS_BITS: u8 = 0x3f;

/// Where a frame is going, or where it came from.
#[derive(Debug, PartialEq, Eq, Structural)]
pub enum Address {
    /// A polling address, 0 to 63, in the short frame.
    Short(u8),
    /// The unique address in the long frame: the manufacturer, the device
    /// type and the device identifier, which every HART 5 and later device
    /// answers to whatever its polling address.
    Long { manufacturer: u8, device_type: u8, device_id: u32 },
}

/// What text says of an address.
pub enum Reading {
    /// It is this address.
    Names(Address),
    /// It is a number that a byte holds, but over 63.
    Over63,
    /// It is none.
    Nothing,
}

/// `7` is a polling address, `26-e5-0a1b2c` a unique one: manufacturer, device
/// type and device identifier in hex.
pub open spec fn reading(text: Seq<char>) -> Reading {
    let parts = text::dash_parts(text);
    if parts.len() == 1 {
        match text::numeral(parts[0], 10, 0xff) {
            Some(polling) => if polling > 63 {
                Reading::Over63
            } else {
                Reading::Names(Address::Short(polling as u8))
            },
            None => Reading::Nothing,
        }
    } else if parts.len() == 3 {
        match (
            text::numeral(parts[0], 16, 0xff),
            text::numeral(parts[1], 16, 0xff),
            text::numeral(parts[2], 16, 0xffff_ffff),
        ) {
            (Some(manufacturer), Some(device_type), Some(device_id)) => Reading::Names(
                Address::Long {
                    manufacturer: manufacturer as u8,
                    device_type: device_type as u8,
                    device_id: device_id as u32,
                },
            ),
            _ => Reading::Nothing,
        }
    } else {
        Reading::Nothing
    }
}

impl Clone for Address {
    fn clone(&self) -> (copy: Self)
        ensures
            copy == *self,
    {
        match self {
            Address::Short(polling) => Address::Short(*polling),
            Address::Long { manufacturer, device_type, device_id } => Address::Long {
                manufacturer: *manufacturer,
                device_type: *device_type,
                device_id: *device_id,
            },
        }
    }
}

impl Address {
    /// How many bytes of a frame an address takes.
    pub open spec fn width(long: bool) -> nat {
        if long {
            5
        } else {
            1
        }
    }

    /// The bits beside the address in its first byte.
    pub open spec fn flags(kind: Kind) -> u8 {
        if kind == Kind::Back {
            PRIMARY_MASTER | BURST
        } else {
            PRIMARY_MASTER
        }
    }

    /// The address as a frame of this kind carries it.
    pub open spec fn wire(self, kind: Kind) -> Seq<u8> {
        match self {
            Address::Short(polling) => seq![Self::flags(kind) | (polling & ADDRESS_BITS)],
            Address::Long { manufacturer, device_type, device_id } => seq![
                Self::flags(kind) | (manufacturer & ADDRESS_BITS),
                device_type,
            ] + bytes::low_bytes(device_id),
        }
    }

    /// The address that the first bytes are, of which there are enough.
    pub open spec fn from_wire(bytes: Seq<u8>, long: bool) -> Address {
        if long {
            Address::Long {
                manufacturer: bytes[0] & ADDRESS_BITS,
                device_type: bytes[1],
                device_id: bytes::low_value(bytes.subrange(2, 5)),
            }
        } else {
            Address::Short(bytes[0] & ADDRESS_BITS)
        }
    }

    /// What a frame keeps of the address: six bits of the first byte, and
    /// three bytes of the device identifier.
    pub open spec fn carried(self) -> Address {
        match self {
            Address::Short(polling) => Address::Short(polling % 64),
            Address::Long { manufacturer, device_type, device_id } => Address::Long {
                manufacturer: manufacturer % 64,
                device_type,
                device_id: device_id % 0x100_0000,
            },
        }
    }

    /// Whether a frame carries the address whole.
    pub open spec fn fits(self) -> bool {
        match self {
            Address::Short(polling) => polling < 64,
            Address::Long { manufacturer, device_type, device_id } => manufacturer < 64
                && device_id < 0x100_0000,
        }
    }

    /// The address as text: the polling address in decimal, or manufacturer,
    /// device type and device identifier in hex with dashes between.
    pub open spec fn shown(self) -> Seq<char> {
        match self {
            Address::Short(polling) => text::digits_of(polling as nat, 10, 1),
            Address::Long { manufacturer, device_type, device_id } => text::digits_of(
                manufacturer as nat,
                16,
                2,
            ) + seq!['-'] + text::digits_of(device_type as nat, 16, 2) + seq!['-']
                + text::digits_of(device_id as nat, 16, 6),
        }
    }

    /// `7` for a polling address, `26-e5-0a1b2c` for a unique one:
    /// manufacturer, device type and device identifier in hex.
    ///
    /// # Errors
    /// A polling address over 63, or hex that does not read.
    pub fn parse(text: &str) -> (read: Result<Address, HartError>)
        ensures
            match read {
                Ok(address) => reading(text@) == Reading::Names(address),
                Err(HartError::PollingOver63) => reading(text@) is Over63,
                Err(HartError::NotAnAddress(given)) => reading(text@) is Nothing && given@
                    == text@,
                Err(_) => false,
            },
    {
        let chars: Vec<char> = chars_of(text);
        let parts: Vec<Vec<char>> = cut_at_dashes(&chars);
        if parts.len() == 1 {
            assert(parts@[0]@ == text::dash_parts(text@)[0]);
            match read_numeral(&parts[0], 10, 0xff) {
                Some(polling) => {
                    if polling > 63 {
                        return Err(HartError::PollingOver63);
                    }
                    return Ok(Address::Short(polling as u8));
                },
                None => {},
            }
        } else if parts.len() == 3 {
            assert(parts@[0]@ == text::dash_parts(text@)[0]);
            assert(parts@[1]@ == text::dash_parts(text@)[1]);
            assert(parts@[2]@ == text::dash_parts(text@)[2]);
            match (
                read_numeral(&parts[0], 16, 0xff),
                read_numeral(&parts[1], 16, 0xff),
                read_numeral(&parts[2], 16, 0xffff_ffff),
            ) {
                (Some(manufacturer), Some(device_type), Some(device_id)) => {
                    return Ok(
                        Address::Long {
                            manufacturer: manufacturer as u8,
                            device_type: device_type as u8,
                            device_id,
                        },
                    );
                },
                _ => {},
            }
        }
        Err(HartError::NotAnAddress(text.to_owned()))
    }

    /// The address as text, as `parse` reads it.
    pub fn to_string(&self) -> (text: String)
        ensures
            text@ == self.shown(),
    {
        let mut out: String = String::new();
        match self {
            Address::Short(polling) => {
                write_digits(&mut out, *polling as u64, 10, 1);
            },
            Address::Long { manufacturer, device_type, device_id } => {
                proof {
                    reveal_strlit("-");
                }
                assert("-"@ =~= seq!['-']);
                write_digits(&mut out, *manufacturer as u64, 16, 2);
                out.append("-");
                write_digits(&mut out, *device_type as u64, 16, 2);
                out.append("-");
                write_digits(&mut out, *device_id as u64, 16, 6);
            },
        }
        assert(out@ =~= self.shown());
        out
    }

    /// Whether it takes the long frame.
    pub(crate) fn is_long(&self) -> (long: bool)
        ensures
            long == (*self is Long),
    {
        match self {
            Address::Short(_) => false,
            Address::Long { .. } => true,
        }
    }

    /// Puts the address at the end of `out` as a frame of this kind carries it.
    pub(crate) fn encode(&self, kind: Kind, out: &mut Vec<u8>)
        ensures
            final(out)@ == old(out)@ + self.wire(kind),
    {
        let flags: u8 = if kind == Kind::Back {
            PRIMARY_MASTER | BURST
        } else {
            PRIMARY_MASTER
        };
        match self {
            Address::Short(polling) => {
                out.push(flags | (*polling & ADDRESS_BITS));
            },
            Address::Long { manufacturer, device_type, device_id } => {
                out.push(flags | (*manufacturer & ADDRESS_BITS));
                out.push(*device_type);
                push_low(out, *device_id);
            },
        }
        assert(out@ =~= old(out)@ + self.wire(kind));
    }

    /// The address that `bytes` opens with, and how many bytes it took.
    ///
    /// # Errors
    /// Fewer bytes than the address takes.
    pub(crate) fn decode(bytes: &[u8], long: bool) -> (read: Result<(Address, usize), HartError>)
        ensures
            match read {
                Ok((address, taken)) => {
                    &&& taken == Self::width(long)
                    &&& taken <= bytes@.len()
                    &&& address == Self::from_wire(bytes@, long)
                },
                Err(error) => error == HartError::CutInsideAddress && bytes@.len() < Self::width(
                    long,
                ),
            },
    {
        if bytes.len() == 0 {
            return Err(HartError::CutInsideAddress);
        }
        let first: u8 = bytes[0];
        if !long {
            return Ok((Address::Short(first & ADDRESS_BITS), 1));
        }
        if bytes.len() < 5 {
            return Err(HartError::CutInsideAddress);
        }
        Ok(
            (
                Address::Long {
                    manufacturer: first & ADDRESS_BITS,
                    device_type: bytes[1],
                    device_id: from_low(bytes, 2),
                },
                5,
            ),
        )
    }
}

/// An address written as text reads back as itself, but for a polling address
/// over 63, which reads back as one over 63.
pub proof fn shown_reads_back(address: Address)
    ensures
        reading(address.shown()) == (match address {
            Address::Short(polling) => if polling > 63 {
                Reading::Over63
            } else {
                Reading::Names(address)
            },
            Address::Long { .. } => Reading::Names(address),
        }),
{
    match address {
        Address::Short(polling) => {
            let digits = text::digits_of(polling as nat, 10, 1);
            text::digits_read_back(polling as nat, 10, 1);
            text::numeral_reads_back(polling as nat, 10, 1, 0xff);
            text::dashless_is_one_part(digits);
        },
        Address::Long { manufacturer, device_type, device_id } => {
            let first = text::digits_of(manufacturer as nat, 16, 2);
            let second = text::digits_of(device_type as nat, 16, 2);
            let third = text::digits_of(device_id as nat, 16, 6);
            text::digits_read_back(manufacturer as nat, 16, 2);
            text::digits_read_back(device_type as nat, 16, 2);
            text::digits_read_back(device_id as nat, 16, 6);
            text::numeral_reads_back(manufacturer as nat, 16, 2, 0xff);
            text::numeral_reads_back(device_type as nat, 16, 2, 0xff);
            text::numeral_reads_back(device_id as nat, 16, 6, 0xffff_ffff);
            text::dashless_is_one_part(first);
            text::dashless_is_one_part(second);
            text::dashless_is_one_part(third);
            text::parts_about_a_dash(first, second);
            text::parts_about_a_dash(first + seq!['-'] + second, third);
            assert(text::dash_parts(address.shown()) =~= seq![first, second, third]);
        },
    }
}

/// The six address bits of a first byte are those it was made from, whatever
/// flags stand beside them.
proof fn lemma_first_byte(kind: Kind, byte: u8)
    ensures
        (Address::flags(kind) | (byte & ADDRESS_BITS)) & ADDRESS_BITS == byte % 64,
{
    assert((0x80u8 | (byte & 0x3fu8)) & 0x3fu8 == byte % 64) by (bit_vector);
    assert(((0x80u8 | 0x40u8) | (byte & 0x3fu8)) & 0x3fu8 == byte % 64) by (bit_vector);
}

/// An address read back from a frame is what the frame carries of it, which is
/// all of it where it fits.
pub proof fn wire_reads_back(address: Address, kind: Kind, rest: Seq<u8>)
    ensures
        address.wire(kind).len() == Address::width(address is Long),
        Address::from_wire(address.wire(kind) + rest, address is Long) == address.carried(),
        address.fits() ==> address.carried() == address,
        address.carried().fits(),
{
    match address {
        Address::Short(polling) => {
            lemma_first_byte(kind, polling);
        },
        Address::Long { manufacturer, device_type, device_id } => {
            lemma_first_byte(kind, manufacturer);
            bytes::low_reads_back(device_id);
            assert((address.wire(kind) + rest).subrange(2, 5) =~= bytes::low_bytes(device_id));
        },
    }
}

/// Whatever a frame's bytes are, the address read from them fits a frame.
pub proof fn read_address_fits(bytes: Seq<u8>, long: bool)
    ensures
        Address::from_wire(bytes, long).fits(),
        Address::from_wire(bytes, long) is Long == long,
{
    let first = bytes[0];
    assert(first & 0x3fu8 < 64) by (bit_vector);
}

} // verus!
