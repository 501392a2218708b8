//! NDP options as they stand in a message buffer (RFC 4861, section 4.6).
//!
//! Each option starts with a type octet and a length octet; the length is
//! that of the whole option in units of 8 octets.
use crate::packets::buffer::{read_item, read_spec, BufferError};
use crate::packets::ip::{v6_from_segments, v6_segments_at, Ipv6Addr};
use crate::packets::mbuf::{be16, be32, splice, MBuf};
use crate::packets::{Fixed, Packet, PacketError, ParseError};
use vstd::prelude::*;

pub mod link_layer_addr;
pub mod mtu;
pub mod prefix_info;

pub use self::link_layer_addr::LinkLayerAddress;
pub use self::mtu::{Mtu, MtuFields};
pub use self::prefix_info::{PrefixInformation, PrefixInformationFields};

verus! {

pub const SOURCE_LINK_LAYER_ADDR: u8 = 1;

pub const TARGET_LINK_LAYER_ADDR: u8 = 2;

pub const PREFIX_INFORMATION: u8 = 3;

pub const MTU: u8 = 5;

/// A parsed NDP option
#[derive(Debug)]
pub enum NdpOption {
    SourceLinkLayerAddress(LinkLayerAddress),
    TargetLinkLayerAddress(LinkLayerAddress),
    PrefixInformation(PrefixInformation),
    Mtu(Mtu),
    /// An undefined NDP option
    Undefined(u8, u8),
}

/// The size in octets of an option of type `t` that this module parses.
pub open spec fn option_size(t: u8) -> nat {
    if t == SOURCE_LINK_LAYER_ADDR || t == TARGET_LINK_LAYER_ADDR || t == MTU {
        8
    } else if t == PREFIX_INFORMATION {
        32
    } else {
        0
    }
}

/// The message of the error for an option of type `t` whose length octet
/// is not its size in 8-octet units.
pub open spec fn option_length_message(t: u8) -> Seq<char> {
    if t == PREFIX_INFORMATION {
        "Invalid prefix information option length"@
    } else if t == MTU {
        "Invalid MTU option length"@
    } else {
        "Invalid link-layer address option length"@
    }
}

/// The option of type `t` that starts at `o` in `d`.
pub open spec fn option_at(d: Seq<u8>, o: nat) -> NdpOption {
    let t = d[o as int];
    if t == SOURCE_LINK_LAYER_ADDR {
        NdpOption::SourceLinkLayerAddress(link_layer_addr::link_layer_addr_at(d, o))
    } else if t == TARGET_LINK_LAYER_ADDR {
        NdpOption::TargetLinkLayerAddress(link_layer_addr::link_layer_addr_at(d, o))
    } else if t == PREFIX_INFORMATION {
        NdpOption::PrefixInformation(prefix_info::prefix_information_at(d, o))
    } else if t == MTU {
        NdpOption::Mtu(mtu::mtu_at(d, o))
    } else {
        NdpOption::Undefined(t, d[o + 1int])
    }
}

/// NDP options iterator
pub struct NdpOptionsIterator<'a> {
    mbuf: &'a MBuf,
    offset: usize,
}

impl<'a> NdpOptionsIterator<'a> {
    /// The buffer the options are read from.
    pub closed spec fn spec_mbuf(&self) -> MBuf {
        *self.mbuf
    }

    /// The buffer offset of the next option.
    pub closed spec fn spec_offset(&self) -> nat {
        self.offset as nat
    }

    pub fn new(mbuf: &'a MBuf, offset: usize) -> (r: NdpOptionsIterator<'a>)
        ensures
            r.spec_mbuf() == *mbuf,
            r.spec_offset() == offset,
    {
        NdpOptionsIterator { mbuf, offset }
    }

    /// Parses the option at the iterator's offset and moves past it.
    ///
    /// Past the end of the buffer there is no option. An option must hold
    /// its type and length octets, a non-zero length, and, where it is of
    /// a type that is parsed, its whole fixed size with a length octet that
    /// gives that size; otherwise it is an error and the iterator stays.
    pub fn next(&mut self) -> (r: Result<Option<NdpOption>, PacketError>)
        requires
            old(self).spec_mbuf().wf(),
        ensures
            final(self).spec_mbuf() == old(self).spec_mbuf(),
            ({
                let d = old(self).spec_mbuf().view();
                let o = old(self).spec_offset();
                let t = d[o as int];
                let l = d[o + 1int];
                if o > d.len() {
                    r matches Ok(None) && final(self).spec_offset() == o
                } else if o + 2 > d.len() {
                    r == Err::<Option<NdpOption>, PacketError>(
                        PacketError::Buffer(BufferError::OutOfBuffer(2)),
                    ) && final(self).spec_offset() == o
                } else if l == 0 {
                    r matches Err(PacketError::Parse(pe)) && pe.message()
                        == "NDP option has zero length"@ && final(self).spec_offset() == o
                } else if option_size(t) > 0 && o + option_size(t) > d.len() {
                    r == Err::<Option<NdpOption>, PacketError>(
                        PacketError::Buffer(BufferError::OutOfBuffer(option_size(t) as usize)),
                    ) && final(self).spec_offset() == o
                } else if option_size(t) > 0 && l != option_size(t) / 8 {
                    r matches Err(PacketError::Parse(pe)) && pe.message() == option_length_message(t)
                        && final(self).spec_offset() == o
                } else {
                    r == Ok::<Option<NdpOption>, PacketError>(Some(option_at(d, o)))
                        && final(self).spec_offset() == o + 8 * l
                }
            }),
    {
        let buffer_len = self.mbuf.data_len();
        if self.offset <= buffer_len {
            match read_item::<[u8; 2]>(self.mbuf, self.offset) {
                Ok(_) => {},
                Err(e) => {
                    return Err(PacketError::Buffer(e));
                },
            }
            let option_type = self.mbuf.read_u8(self.offset);
            let length = self.mbuf.read_u8(self.offset + 1);
            if length == 0 {
                Err(PacketError::Parse(ParseError::new("NDP option has zero length")))
            } else {
                let option = if option_type == SOURCE_LINK_LAYER_ADDR {
                    match LinkLayerAddress::parse(self.mbuf, self.offset) {
                        Ok(option) => NdpOption::SourceLinkLayerAddress(option),
                        Err(e) => {
                            return Err(e);
                        },
                    }
                } else if option_type == TARGET_LINK_LAYER_ADDR {
                    match LinkLayerAddress::parse(self.mbuf, self.offset) {
                        Ok(option) => NdpOption::TargetLinkLayerAddress(option),
                        Err(e) => {
                            return Err(e);
                        },
                    }
                } else if option_type == PREFIX_INFORMATION {
                    match PrefixInformation::parse(self.mbuf, self.offset) {
                        Ok(option) => NdpOption::PrefixInformation(option),
                        Err(e) => {
                            return Err(e);
                        },
                    }
                } else if option_type == MTU {
                    match Mtu::parse(self.mbuf, self.offset) {
                        Ok(option) => NdpOption::Mtu(option),
                        Err(e) => {
                            return Err(e);
                        },
                    }
                } else {
                    NdpOption::Undefined(option_type, length)
                };
                proof {
                    self.mbuf.lemma_len_bound();
                }
                self.offset = self.offset + length as usize * 8;
                Ok(Some(option))
            }
        } else {
            Ok(None)
        }
    }
}

/// Writes `bytes` at `pos` into the payload of `packet`.
pub(crate) fn write_option_bytes<P: Packet>(packet: &mut P, pos: usize, bytes: &[u8])
    requires
        old(packet).inv(),
        old(packet).spec_offset() + old(packet).spec_header_len() <= pos,
        pos + bytes@.len() <= old(packet).spec_mbuf().view().len(),
    ensures
        final(packet).inv(),
        final(packet).spec_mbuf().view() == splice(old(packet).spec_mbuf().view(), pos as nat, bytes@),
        final(packet).spec_offset() == old(packet).spec_offset(),
        final(packet).spec_header_len() == old(packet).spec_header_len(),
{
    packet.write_bytes(pos, bytes);
}

} // verus!
