//! Wire format of the keep-alive (presence announcement) datagram.
use vstd::prelude::*;
use vstd::utf8::{
    decode_utf8, encode_utf8, encode_utf8_decode_utf8, encode_utf8_valid_utf8, is_ascii_chars,
    is_ascii_chars_encode_utf8, is_ascii_chars_nat_bound, valid_utf8,
};

verus! {

/// The ten bytes `Qspt1WmJOL` that open every datagram of the protocol.
pub open spec fn magic() -> Seq<u8> {
    seq![0x51u8, 0x73u8, 0x70u8, 0x74u8, 0x31u8, 0x57u8, 0x6du8, 0x4au8, 0x4fu8, 0x4cu8]
}

/// `b` with every trailing zero byte removed.
pub open spec fn trim_trailing_zeros(b: Seq<u8>) -> Seq<u8>
    decreases b.len(),
{
    if b.len() > 0 && b.last() == 0 {
        trim_trailing_zeros(b.drop_last())
    } else {
        b
    }
}

/// Removing trailing zeros keeps a prefix of `b`, drops zero bytes only, and
/// leaves no zero byte at the end: an embedded zero followed by other bytes
/// stays where it is.
pub proof fn lemma_trim_trailing_zeros(b: Seq<u8>)
    ensures
        trim_trailing_zeros(b).len() <= b.len(),
        trim_trailing_zeros(b) == b.subrange(0, trim_trailing_zeros(b).len() as int),
        forall|i: int| trim_trailing_zeros(b).len() <= i < b.len() ==> b[i] == 0,
        trim_trailing_zeros(b).len() == 0 || trim_trailing_zeros(b).last() != 0,
    decreases b.len(),
{
    if b.len() > 0 && b.last() == 0 {
        lemma_trim_trailing_zeros(b.drop_last());
        let t = trim_trailing_zeros(b.drop_last());
        assert(t == b.subrange(0, t.len() as int));
        assert forall|i: int| t.len() <= i < b.len() implies b[i] == 0 by {
            if i < b.len() - 1 {
                assert(b[i] == b.drop_last()[i]);
            }
        }
    } else {
        assert(b == b.subrange(0, b.len() as int));
    }
}

/// The slice of `input` that is left once its trailing zero bytes are cut off.
pub fn trim_end_zeros(input: &[u8]) -> (r: &[u8])
    ensures
        r@ == trim_trailing_zeros(input@),
{
    let mut end: usize = input.len();
    assert(input@.subrange(0, end as int) == input@);
    while end > 0 && input[end - 1] == 0u8
        invariant
            end <= input@.len(),
            trim_trailing_zeros(input@.subrange(0, end as int)) == trim_trailing_zeros(input@),
        decreases end,
    {
        assert(input@.subrange(0, end as int).drop_last() == input@.subrange(0, end - 1));
        end = end - 1;
    }
    assert(input@.subrange(0, input@.len() as int) == input@);
    &input[0..end]
}

/// Whether `input` begins with the protocol's magic bytes.
pub fn has_magic_prefix(input: &[u8]) -> (r: bool)
    ensures
        r == (input@.len() >= 10 && input@.subrange(0, 10) == magic()),
{
    if input.len() < 10 {
        return false;
    }
    let r = input[0] == 0x51u8 && input[1] == 0x73u8 && input[2] == 0x70u8 && input[3] == 0x74u8
        && input[4] == 0x31u8 && input[5] == 0x57u8 && input[6] == 0x6du8 && input[7] == 0x4au8
        && input[8] == 0x4fu8 && input[9] == 0x4cu8;
    assert(r == (input@.subrange(0, 10) =~= magic()));
    r
}


/// Why a datagram could not be decoded.
#[derive(Debug, Clone, Copy, PartialEq, Eq, Structural)]
pub enum DecodeError {
    /// The datagram does not begin with the magic bytes.
    MissingHeader,
    /// The model name is not valid UTF-8 text.
    MalformedText,
    /// The device type byte is none of the known codes.
    UnknownDeviceType,
    /// The sub-type byte is none of the known codes.
    UnknownSubType,
    /// The message type byte selects no known payload.
    UnknownMessageType,
    /// Four address bytes that form no IPv4 address; every four bytes do, so
    /// no datagram yields it.
    InvalidAddress,
    /// The datagram ends before a field that it must hold.
    Truncated,
}

/// The coarse error of [`process_keep_alive_message`].
#[derive(Debug, Clone, Copy, PartialEq, Eq, Structural)]
pub enum Error {
    ParseError,
    MissingHeaderError,
}

/// How a fine-grained decoding failure is reported to callers that only need
/// to know whether the header was there.
pub open spec fn coarse_error(e: DecodeError) -> Error {
    match e {
        DecodeError::MissingHeader => Error::MissingHeaderError,
        _ => Error::ParseError,
    }
}

impl DecodeError {
    pub fn to_error(self) -> (r: Error)
        ensures
            r == coarse_error(self),
    {
        match self {
            DecodeError::MissingHeader => Error::MissingHeaderError,
            _ => Error::ParseError,
        }
    }
}

/// A link-layer (MAC) address, one field per byte.
#[derive(Debug, Clone, Copy, PartialEq, Eq, Structural)]
pub struct MacAddr {
    pub a: u8,
    pub b: u8,
    pub c: u8,
    pub d: u8,
    pub e: u8,
    pub f: u8,
}

/// The big-endian number that four bytes spell.
pub open spec fn be_u32(a: u8, b: u8, c: u8, d: u8) -> u32 {
    ((a as u32) << 24u32) | ((b as u32) << 16u32) | ((c as u32) << 8u32) | (d as u32)
}

/// An IPv4 address, held as the 32-bit number whose big-endian bytes are its
/// four octets.
#[derive(Debug, Clone, Copy, PartialEq, Eq, Structural)]
pub struct Ipv4Address {
    pub bits: u32,
}

impl Ipv4Address {
    /// The address `a.b.c.d`.
    pub fn new(a: u8, b: u8, c: u8, d: u8) -> (r: Ipv4Address)
        ensures
            r.bits == be_u32(a, b, c, d),
    {
        Ipv4Address {
            bits: ((a as u32) << 24u32) | ((b as u32) << 16u32) | ((c as u32) << 8u32) | (d as u32),
        }
    }
}

/// The kind of device that sends an announcement.
#[derive(Debug, Clone, Copy, PartialEq, Eq, Structural)]
pub enum DeviceType {
    Djm,
    Cdj,
    Rekordbox,
}

/// The device type that a wire code stands for.
pub open spec fn device_type_of(code: u8) -> Option<DeviceType> {
    if code == 1 {
        Some(DeviceType::Djm)
    } else if code == 2 {
        Some(DeviceType::Cdj)
    } else if code == 3 {
        Some(DeviceType::Rekordbox)
    } else {
        None
    }
}

/// The secondary classification carried in every announcement.
#[derive(Debug, Clone, Copy, PartialEq, Eq, Structural)]
pub enum MessageSubType {
    Hello,
    Number,
    Mac,
    Ip,
    Status,
    Change,
    StatusMixer,
}

/// The sub-type that a wire code stands for.
pub open spec fn sub_type_of(code: u8) -> Option<MessageSubType> {
    if code == 0x25 {
        Some(MessageSubType::Hello)
    } else if code == 0x26 {
        Some(MessageSubType::Number)
    } else if code == 0x2c {
        Some(MessageSubType::Mac)
    } else if code == 0x32 {
        Some(MessageSubType::Ip)
    } else if code == 0x36 {
        Some(MessageSubType::Status)
    } else if code == 0x29 {
        Some(MessageSubType::Change)
    } else if code == 0x00 {
        Some(MessageSubType::StatusMixer)
    } else {
        None
    }
}

/// The payload of a status announcement.
#[derive(Debug, Clone, Copy, PartialEq, Eq, Structural)]
pub struct Status {
    pub player_number: u8,
    pub mac_address: MacAddr,
    pub ip_addr: Ipv4Address,
    pub device_count: u8,
}

/// The payload of an announcement, selected by its message type byte.
#[derive(Debug, Clone, Copy, PartialEq, Eq, Structural)]
pub enum MessageType {
    Hello,
    Number,
    Mac,
    Ip,
    Status(Status),
    Change,
}

/// A decoded announcement.
#[derive(Debug, PartialEq, Eq)]
pub struct KeepAliveMessage {
    pub msg_type: u8,
    pub model_name: String,
    pub device_type: DeviceType,
    pub msg_sub_type: MessageSubType,
    pub msg_value: MessageType,
}

/// What a [`KeepAliveMessage`] holds, with the model name as characters.
pub struct MessageView {
    pub msg_type: u8,
    pub model_name: Seq<char>,
    pub device_type: DeviceType,
    pub msg_sub_type: MessageSubType,
    pub msg_value: MessageType,
}

impl View for KeepAliveMessage {
    type V = MessageView;

    open spec fn view(&self) -> MessageView {
        MessageView {
            msg_type: self.msg_type,
            model_name: self.model_name@,
            device_type: self.device_type,
            msg_sub_type: self.msg_sub_type,
            msg_value: self.msg_value,
        }
    }
}

/// The MAC address in the first six bytes of `b`.
pub open spec fn spec_mac(b: Seq<u8>) -> MacAddr
    recommends
        b.len() >= 6,
{
    MacAddr { a: b[0], b: b[1], c: b[2], d: b[3], e: b[4], f: b[5] }
}

/// The status payload in the first thirteen bytes of `b`: player number, a
/// reserved byte, six MAC bytes, four big-endian address bytes, device count.
pub open spec fn spec_status(b: Seq<u8>) -> Status
    recommends
        b.len() >= 13,
{
    Status {
        player_number: b[0],
        mac_address: spec_mac(b.subrange(2, 8)),
        ip_addr: Ipv4Address { bits: be_u32(b[8], b[9], b[10], b[11]) },
        device_count: b[12],
    }
}

/// The payload that `selector` picks, read from the start of `b`, with the
/// number of bytes it takes.
pub open spec fn spec_message_type(b: Seq<u8>, selector: u8) -> Result<(MessageType, int), DecodeError> {
    if selector == 10 {
        Ok((MessageType::Hello, 0))
    } else if selector == 4 {
        Ok((MessageType::Number, 0))
    } else if selector == 0 {
        Ok((MessageType::Mac, 0))
    } else if selector == 2 {
        Ok((MessageType::Ip, 0))
    } else if selector == 6 {
        if b.len() < 13 {
            Err(DecodeError::Truncated)
        } else {
            Ok((MessageType::Status(spec_status(b)), 13))
        }
    } else if selector == 8 {
        Ok((MessageType::Change, 0))
    } else {
        Err(DecodeError::UnknownMessageType)
    }
}

/// The model name that twenty zero-padded bytes spell.
pub open spec fn spec_model_name(b: Seq<u8>) -> Seq<char> {
    decode_utf8(trim_trailing_zeros(b))
}

/// The announcement that follows the magic bytes, read from the start of
/// `b`, with the number of bytes it takes. Offsets: message type 0, model
/// name 2..22, device type 23, sub-type 25, payload from 26.
pub open spec fn spec_keep_alive(b: Seq<u8>) -> Result<(MessageView, int), DecodeError> {
    if b.len() < 22 {
        Err(DecodeError::Truncated)
    } else if !valid_utf8(trim_trailing_zeros(b.subrange(2, 22))) {
        Err(DecodeError::MalformedText)
    } else if b.len() < 24 {
        Err(DecodeError::Truncated)
    } else if device_type_of(b[23]) is None {
        Err(DecodeError::UnknownDeviceType)
    } else if b.len() < 26 {
        Err(DecodeError::Truncated)
    } else if sub_type_of(b[25]) is None {
        Err(DecodeError::UnknownSubType)
    } else {
        match spec_message_type(b.subrange(26, b.len() as int), b[0]) {
            Ok((payload, n)) => Ok(
                (
                    MessageView {
                        msg_type: b[0],
                        model_name: spec_model_name(b.subrange(2, 22)),
                        device_type: device_type_of(b[23])->Some_0,
                        msg_sub_type: sub_type_of(b[25])->Some_0,
                        msg_value: payload,
                    },
                    26 + n,
                ),
            ),
            Err(e) => Err(e),
        }
    }
}

/// A whole datagram: the magic bytes, then an announcement. Bytes after the
/// announcement are ignored.
pub open spec fn spec_decode(b: Seq<u8>) -> Result<MessageView, DecodeError> {
    if b.len() >= 10 && b.subrange(0, 10) == magic() {
        match spec_keep_alive(b.subrange(10, b.len() as int)) {
            Ok((m, _)) => Ok(m),
            Err(e) => Err(e),
        }
    } else {
        Err(DecodeError::MissingHeader)
    }
}

/// Relies on std::str::from_utf8: it accepts exactly the bytes that are valid
/// UTF-8, and the text it returns is those bytes decoded.
#[verifier::external_body]
fn utf8_text(b: &[u8]) -> (r: Option<&str>)
    ensures
        r is Some <==> valid_utf8(b@),
        r matches Some(s) ==> s@ == decode_utf8(b@),
{
    std::str::from_utf8(b).ok()
}

/// The marker for the magic bytes at the start of a datagram.
#[derive(Debug, Clone, Copy, PartialEq, Eq, Structural)]
pub struct UdpMagic;

impl UdpMagic {
    /// Takes the magic bytes off the front of `input`.
    pub fn decode(input: &[u8]) -> (r: Result<(&[u8], UdpMagic), DecodeError>)
        ensures
            r is Ok <==> (input@.len() >= 10 && input@.subrange(0, 10) == magic()),
            r matches Ok((rest, _)) ==> rest@ == input@.subrange(10, input@.len() as int),
            r matches Err(e) ==> e == DecodeError::MissingHeader,
    {
        if has_magic_prefix(input) {
            Ok((&input[10..input.len()], UdpMagic))
        } else {
            Err(DecodeError::MissingHeader)
        }
    }
}

impl MacAddr {
    /// Reads six bytes as a MAC address.
    pub fn parse(input: &[u8]) -> (r: Result<(&[u8], MacAddr), DecodeError>)
        ensures
            r is Ok <==> input@.len() >= 6,
            r matches Ok((rest, m)) ==> m == spec_mac(input@) && rest@ == input@.subrange(
                6,
                input@.len() as int,
            ),
            r matches Err(e) ==> e == DecodeError::Truncated,
    {
        if input.len() < 6 {
            return Err(DecodeError::Truncated);
        }
        let m = MacAddr {
            a: input[0],
            b: input[1],
            c: input[2],
            d: input[3],
            e: input[4],
            f: input[5],
        };
        Ok((&input[6..input.len()], m))
    }
}

/// Reads four bytes as a big-endian IPv4 address. Every four bytes form one,
/// so only a short input fails.
pub fn ip_address_parser(input: &[u8]) -> (r: Result<(&[u8], Ipv4Address), DecodeError>)
    ensures
        r is Ok <==> input@.len() >= 4,
        r matches Ok((rest, a)) ==> a.bits == be_u32(input@[0], input@[1], input@[2], input@[3])
            && rest@ == input@.subrange(4, input@.len() as int),
        r matches Err(e) ==> e == DecodeError::Truncated,
{
    if input.len() < 4 {
        return Err(DecodeError::Truncated);
    }
    let a = Ipv4Address::new(input[0], input[1], input[2], input[3]);
    Ok((&input[4..input.len()], a))
}

impl Status {
    /// Reads a status payload: player number, a reserved byte, MAC address,
    /// IPv4 address and device count.
    pub fn parse(input: &[u8]) -> (r: Result<(&[u8], Status), DecodeError>)
        ensures
            r is Ok <==> input@.len() >= 13,
            r matches Ok((rest, st)) ==> st == spec_status(input@) && rest@ == input@.subrange(
                13,
                input@.len() as int,
            ),
            r matches Err(e) ==> e == DecodeError::Truncated,
    {
        if input.len() < 13 {
            return Err(DecodeError::Truncated);
        }
        let player_number = input[0];
        let (rest, mac_address) = match MacAddr::parse(&input[2..input.len()]) {
            Ok(p) => p,
            Err(e) => return Err(e),
        };
        let (rest, ip_addr) = match ip_address_parser(rest) {
            Ok(p) => p,
            Err(e) => return Err(e),
        };
        let device_count = rest[0];
        assert(input@.subrange(2, input@.len() as int).subrange(0, 6) == input@.subrange(2, 8));
        assert(spec_mac(input@.subrange(2, input@.len() as int)) == spec_mac(input@.subrange(2, 8)));
        Ok((&rest[1..rest.len()], Status { player_number, mac_address, ip_addr, device_count }))
    }
}

impl MessageType {
    /// Reads the payload that `selector`, the message type byte, picks.
    pub fn parse(input: &[u8], selector: u8) -> (r: Result<(&[u8], MessageType), DecodeError>)
        ensures
            match r {
                Ok((rest, v)) => spec_message_type(input@, selector) matches Ok((sv, n)) && sv == v
                    && 0 <= n <= input@.len() && rest@ == input@.subrange(n, input@.len() as int),
                Err(e) => spec_message_type(input@, selector) == Err::<(MessageType, int), DecodeError>(e),
            },
    {
        assert(input@.subrange(0, input@.len() as int) == input@);
        if selector == 10 {
            Ok((input, MessageType::Hello))
        } else if selector == 4 {
            Ok((input, MessageType::Number))
        } else if selector == 0 {
            Ok((input, MessageType::Mac))
        } else if selector == 2 {
            Ok((input, MessageType::Ip))
        } else if selector == 6 {
            match Status::parse(input) {
                Ok((rest, st)) => Ok((rest, MessageType::Status(st))),
                Err(e) => Err(e),
            }
        } else if selector == 8 {
            Ok((input, MessageType::Change))
        } else {
            Err(DecodeError::UnknownMessageType)
        }
    }
}

impl DeviceType {
    /// Reads one byte as a device type code.
    pub fn parse(input: &[u8]) -> (r: Result<(&[u8], DeviceType), DecodeError>)
        ensures
            input@.len() == 0 ==> r == Err::<(&[u8], DeviceType), DecodeError>(DecodeError::Truncated),
            input@.len() > 0 ==> match r {
                Ok((rest, t)) => device_type_of(input@[0]) == Some(t) && rest@ == input@.subrange(
                    1,
                    input@.len() as int,
                ),
                Err(e) => device_type_of(input@[0]) is None && e == DecodeError::UnknownDeviceType,
            },
    {
        if input.len() == 0 {
            return Err(DecodeError::Truncated);
        }
        let t = match input[0] {
            1u8 => DeviceType::Djm,
            2u8 => DeviceType::Cdj,
            3u8 => DeviceType::Rekordbox,
            _ => return Err(DecodeError::UnknownDeviceType),
        };
        Ok((&input[1..input.len()], t))
    }
}

impl MessageSubType {
    /// Reads one byte as a sub-type code.
    pub fn parse(input: &[u8]) -> (r: Result<(&[u8], MessageSubType), DecodeError>)
        ensures
            input@.len() == 0 ==> r == Err::<(&[u8], MessageSubType), DecodeError>(DecodeError::Truncated),
            input@.len() > 0 ==> match r {
                Ok((rest, t)) => sub_type_of(input@[0]) == Some(t) && rest@ == input@.subrange(
                    1,
                    input@.len() as int,
                ),
                Err(e) => sub_type_of(input@[0]) is None && e == DecodeError::UnknownSubType,
            },
    {
        if input.len() == 0 {
            return Err(DecodeError::Truncated);
        }
        let t = match input[0] {
            0x25u8 => MessageSubType::Hello,
            0x26u8 => MessageSubType::Number,
            0x2cu8 => MessageSubType::Mac,
            0x32u8 => MessageSubType::Ip,
            0x36u8 => MessageSubType::Status,
            0x29u8 => MessageSubType::Change,
            0x00u8 => MessageSubType::StatusMixer,
            _ => return Err(DecodeError::UnknownSubType),
        };
        Ok((&input[1..input.len()], t))
    }
}

/// Reads twenty bytes as a zero-padded model name, without the padding.
pub fn model_name_parser(input: &[u8]) -> (r: Result<(&[u8], String), DecodeError>)
    ensures
        input@.len() < 20 ==> r == Err::<(&[u8], String), DecodeError>(DecodeError::Truncated),
        input@.len() >= 20 ==> match r {
            Ok((rest, name)) => valid_utf8(trim_trailing_zeros(input@.subrange(0, 20)))
                && name@ == spec_model_name(input@.subrange(0, 20))
                && rest@ == input@.subrange(20, input@.len() as int),
            Err(e) => !valid_utf8(trim_trailing_zeros(input@.subrange(0, 20)))
                && e == DecodeError::MalformedText,
        },
{
    if input.len() < 20 {
        return Err(DecodeError::Truncated);
    }
    let raw = trim_end_zeros(&input[0..20]);
    match utf8_text(raw) {
        Some(text) => Ok((&input[20..input.len()], text.to_owned())),
        None => Err(DecodeError::MalformedText),
    }
}

impl KeepAliveMessage {
    /// Reads the announcement that follows the magic bytes: message type, a
    /// reserved byte, model name, a reserved byte, device type, a reserved
    /// byte, sub-type, then the payload that the message type selects.
    pub fn parse(input: &[u8]) -> (r: Result<(&[u8], KeepAliveMessage), DecodeError>)
        ensures
            match r {
                Ok((rest, m)) => spec_keep_alive(input@) matches Ok((v, n)) && v == m@ && 0 <= n
                    <= input@.len() && rest@ == input@.subrange(n, input@.len() as int),
                Err(e) => spec_keep_alive(input@) == Err::<(MessageView, int), DecodeError>(e),
            },
    {
        if input.len() < 22 {
            return Err(DecodeError::Truncated);
        }
        let msg_type = input[0];
        assert(input@.subrange(2, input@.len() as int).subrange(0, 20) == input@.subrange(2, 22));
        let (rest, model_name) = match model_name_parser(&input[2..input.len()]) {
            Ok(p) => p,
            Err(e) => return Err(e),
        };
        proof {
            assert(rest@ == input@.subrange(22, input@.len() as int));
        }
        if rest.len() < 2 {
            return Err(DecodeError::Truncated);
        }
        let (rest, device_type) = match DeviceType::parse(&rest[1..rest.len()]) {
            Ok(p) => p,
            Err(e) => return Err(e),
        };
        assert(rest@ == input@.subrange(24, input@.len() as int));
        if rest.len() < 2 {
            return Err(DecodeError::Truncated);
        }
        let (rest, msg_sub_type) = match MessageSubType::parse(&rest[1..rest.len()]) {
            Ok(p) => p,
            Err(e) => return Err(e),
        };
        assert(rest@ == input@.subrange(26, input@.len() as int));
        let (rest, msg_value) = match MessageType::parse(rest, msg_type) {
            Ok(p) => p,
            Err(e) => return Err(e),
        };
        let m = KeepAliveMessage { msg_type, model_name, device_type, msg_sub_type, msg_value };
        assert(rest@ =~= input@.subrange(
            26 + spec_message_type(input@.subrange(26, input@.len() as int), msg_type)->Ok_0.1,
            input@.len() as int,
        ));
        Ok((rest, m))
    }
}

/// Decodes a whole datagram: the magic bytes, then an announcement.
pub fn decode(input: &[u8]) -> (r: Result<KeepAliveMessage, DecodeError>)
    ensures
        match r {
            Ok(m) => spec_decode(input@) == Ok::<MessageView, DecodeError>(m@),
            Err(e) => spec_decode(input@) == Err::<MessageView, DecodeError>(e),
        },
{
    match UdpMagic::decode(input) {
        Ok((rest, _)) => match KeepAliveMessage::parse(rest) {
            Ok((_, m)) => Ok(m),
            Err(e) => Err(e),
        },
        Err(e) => Err(e),
    }
}

/// Decodes a whole datagram, reporting only whether the header was missing
/// or the rest failed to parse.
pub fn process_keep_alive_message(input: &[u8]) -> (r: Result<KeepAliveMessage, Error>)
    ensures
        match r {
            Ok(m) => spec_decode(input@) == Ok::<MessageView, DecodeError>(m@),
            Err(e) => spec_decode(input@) matches Err(d) && e == coarse_error(d),
        },
{
    match decode(input) {
        Ok(m) => Ok(m),
        Err(e) => Err(e.to_error()),
    }
}

/// The wire code of a device type.
pub open spec fn device_type_code(t: DeviceType) -> u8 {
    match t {
        DeviceType::Djm => 1,
        DeviceType::Cdj => 2,
        DeviceType::Rekordbox => 3,
    }
}

/// The wire code of a sub-type.
pub open spec fn sub_type_code(t: MessageSubType) -> u8 {
    match t {
        MessageSubType::Hello => 0x25,
        MessageSubType::Number => 0x26,
        MessageSubType::Mac => 0x2c,
        MessageSubType::Ip => 0x32,
        MessageSubType::Status => 0x36,
        MessageSubType::Change => 0x29,
        MessageSubType::StatusMixer => 0x00,
    }
}

/// The message type byte that selects a payload of this shape.
pub open spec fn selector_of(v: MessageType) -> u8 {
    match v {
        MessageType::Hello => 10,
        MessageType::Number => 4,
        MessageType::Mac => 0,
        MessageType::Ip => 2,
        MessageType::Status(_) => 6,
        MessageType::Change => 8,
    }
}

/// The four octets of an address, most significant first.
pub open spec fn ip_bytes(a: Ipv4Address) -> Seq<u8> {
    seq![(a.bits >> 24u32) as u8, (a.bits >> 16u32) as u8, (a.bits >> 8u32) as u8, a.bits as u8]
}

/// The bytes of a payload; `pad` fills the reserved byte of a status payload.
pub open spec fn payload_bytes(v: MessageType, pad: u8) -> Seq<u8> {
    match v {
        MessageType::Status(s) => seq![s.player_number, pad]
            + seq![s.mac_address.a, s.mac_address.b, s.mac_address.c]
            + seq![s.mac_address.d, s.mac_address.e, s.mac_address.f]
            + ip_bytes(s.ip_addr)
            + seq![s.device_count],
        _ => Seq::empty(),
    }
}

/// `n` zero bytes.
pub open spec fn zeros(n: nat) -> Seq<u8> {
    Seq::new(n, |i: int| 0u8)
}

/// The twenty-byte field that holds `name`, padded with zero bytes.
pub open spec fn model_name_field(name: Seq<char>) -> Seq<u8> {
    encode_utf8(name) + zeros((20 - encode_utf8(name).len()) as nat)
}

/// A datagram laid out from its fields: `r0`, `r1` and `r2` fill the three
/// reserved header bytes, `pad` the reserved payload byte, and `extra` is
/// whatever follows the payload.
pub open spec fn frame(
    name: Seq<char>,
    device_type: DeviceType,
    msg_sub_type: MessageSubType,
    payload: MessageType,
    r0: u8,
    r1: u8,
    r2: u8,
    pad: u8,
    extra: Seq<u8>,
) -> Seq<u8> {
    magic() + seq![selector_of(payload), r0] + model_name_field(name) + seq![
        r1,
        device_type_code(device_type),
        r2,
        sub_type_code(msg_sub_type),
    ] + payload_bytes(payload, pad) + extra
}

proof fn lemma_trim_zeros_appended(b: Seq<u8>, n: nat)
    ensures
        trim_trailing_zeros(b + zeros(n)) == trim_trailing_zeros(b),
    decreases n,
{
    if n > 0 {
        assert((b + zeros(n)).drop_last() == b + zeros((n - 1) as nat));
        lemma_trim_zeros_appended(b, (n - 1) as nat);
    } else {
        assert(b + zeros(0) == b);
    }
}

proof fn lemma_ip_bytes(a: Ipv4Address)
    ensures
        be_u32(ip_bytes(a)[0], ip_bytes(a)[1], ip_bytes(a)[2], ip_bytes(a)[3]) == a.bits,
{
    let x = a.bits;
    assert((((x >> 24u32) as u8 as u32) << 24u32) | (((x >> 16u32) as u8 as u32) << 16u32) | (((x
        >> 8u32) as u8 as u32) << 8u32) | (x as u8 as u32) == x) by (bit_vector);
}

proof fn lemma_ip_bytes_of_octets(a: u8, b: u8, c: u8, d: u8)
    ensures
        ip_bytes(Ipv4Address { bits: be_u32(a, b, c, d) }) == seq![a, b, c, d],
{
    let x = be_u32(a, b, c, d);
    assert((x >> 24u32) as u8 == a && (x >> 16u32) as u8 == b && (x >> 8u32) as u8 == c && x as u8
        == d) by (bit_vector)
        requires
            x == ((a as u32) << 24u32) | ((b as u32) << 16u32) | ((c as u32) << 8u32) | (d as u32),
    ;
    assert(ip_bytes(Ipv4Address { bits: x }) =~= seq![a, b, c, d]);
}

/// Decoding a datagram built from an ASCII model name of at most twenty
/// characters that does not end in a zero character, and from any device
/// type, sub-type and payload, gives back exactly those fields, whatever the
/// reserved bytes and whatever follows the payload.
pub proof fn lemma_decode_frame(
    name: Seq<char>,
    device_type: DeviceType,
    msg_sub_type: MessageSubType,
    payload: MessageType,
    r0: u8,
    r1: u8,
    r2: u8,
    pad: u8,
    extra: Seq<u8>,
)
    requires
        is_ascii_chars(name),
        name.len() <= 20,
        name.len() == 0 || name.last() != '\0',
    ensures
        spec_decode(frame(name, device_type, msg_sub_type, payload, r0, r1, r2, pad, extra)) == Ok::<
            MessageView,
            DecodeError,
        >(
            MessageView {
                msg_type: selector_of(payload),
                model_name: name,
                device_type,
                msg_sub_type,
                msg_value: payload,
            },
        ),
{
    let b = frame(name, device_type, msg_sub_type, payload, r0, r1, r2, pad, extra);
    let enc = encode_utf8(name);
    is_ascii_chars_encode_utf8(name);
    encode_utf8_valid_utf8(name);
    encode_utf8_decode_utf8(name);
    let field = model_name_field(name);
    assert(field.len() == 20);
    let body = b.subrange(10, b.len() as int);
    let pb = payload_bytes(payload, pad);
    assert(b.subrange(0, 10) =~= magic());
    assert(body =~= seq![selector_of(payload), r0] + field + seq![
        r1,
        device_type_code(device_type),
        r2,
        sub_type_code(msg_sub_type),
    ] + pb + extra);
    assert(body.subrange(2, 22) =~= field);
    lemma_trim_zeros_appended(enc, (20 - enc.len()) as nat);
    if enc.len() > 0 {
        assert(enc.last() == name.last() as u8);
        assert(name.last() as u8 != 0u8) by {
            is_ascii_chars_nat_bound(name);
        }
        assert(enc.drop_last() + seq![enc.last()] =~= enc);
    } else {
        assert(enc =~= Seq::<u8>::empty());
    }
    assert(trim_trailing_zeros(enc) == enc);
    assert(trim_trailing_zeros(field) == enc);
    assert(body[23] == device_type_code(device_type));
    assert(body[25] == sub_type_code(msg_sub_type));
    let tail = body.subrange(26, body.len() as int);
    assert(tail =~= pb + extra);
    match payload {
        MessageType::Status(st) => {
            lemma_ip_bytes(st.ip_addr);
            assert(tail.subrange(2, 8).subrange(0, 6) =~= tail.subrange(2, 8));
            assert(spec_status(tail) =~= st);
        },
        _ => {},
    }
}

/// Any input that does not begin with the ten magic bytes, the empty input
/// among them, fails to decode with `MissingHeader`.
pub proof fn lemma_decode_without_magic(b: Seq<u8>)
    requires
        !(b.len() >= 10 && b.subrange(0, 10) == magic()),
    ensures
        spec_decode(b) == Err::<MessageView, DecodeError>(DecodeError::MissingHeader),
{
}

/// The status announcement of a CDJ "XDJ-700" taken from a live network: 180
/// bytes, player 2, MAC c8:3d:fc:04:1e:c4, address 192.168.10.78, one device
/// in view.
pub fn status_package() -> (r: Vec<u8>)
    ensures
        r@.len() == 180,
        spec_decode(r@) == Ok::<MessageView, DecodeError>(
            MessageView {
                msg_type: 6,
                model_name: seq!['X', 'D', 'J', '-', '7', '0', '0'],
                device_type: DeviceType::Cdj,
                msg_sub_type: MessageSubType::Status,
                msg_value: MessageType::Status(
                    Status {
                        player_number: 2,
                        mac_address: MacAddr { a: 200, b: 61, c: 252, d: 4, e: 30, f: 196 },
                        ip_addr: Ipv4Address { bits: be_u32(192, 168, 10, 78) },
                        device_count: 1,
                    },
                ),
            },
        ),
{
    let mut v: Vec<u8> = vec![0u8; 180];
    assert(v@ =~= zeros(180));
    v.set(0, 81u8);
    v.set(1, 115u8);
    v.set(2, 112u8);
    v.set(3, 116u8);
    v.set(4, 49u8);
    v.set(5, 87u8);
    v.set(6, 109u8);
    v.set(7, 74u8);
    v.set(8, 79u8);
    v.set(9, 76u8);
    v.set(10, 6u8);
    v.set(12, 88u8);
    v.set(13, 68u8);
    v.set(14, 74u8);
    v.set(15, 45u8);
    v.set(16, 55u8);
    v.set(17, 48u8);
    v.set(18, 48u8);
    v.set(32, 1u8);
    v.set(33, 2u8);
    v.set(35, 54u8);
    v.set(36, 2u8);
    v.set(37, 2u8);
    v.set(38, 200u8);
    v.set(39, 61u8);
    v.set(40, 252u8);
    v.set(41, 4u8);
    v.set(42, 30u8);
    v.set(43, 196u8);
    v.set(44, 192u8);
    v.set(45, 168u8);
    v.set(46, 10u8);
    v.set(47, 78u8);
    v.set(48, 1u8);
    v.set(52, 1u8);
    proof {
        let name = seq!['X', 'D', 'J', '-', '7', '0', '0'];
        let st = Status {
            player_number: 2,
            mac_address: MacAddr { a: 200, b: 61, c: 252, d: 4, e: 30, f: 196 },
            ip_addr: Ipv4Address { bits: be_u32(192, 168, 10, 78) },
            device_count: 1,
        };
        let payload = MessageType::Status(st);
        let extra = zeros(131).update(3, 1u8);
        assert(is_ascii_chars(name));
        is_ascii_chars_encode_utf8(name);
        assert(encode_utf8(name) =~= seq![88u8, 68, 74, 45, 55, 48, 48]);
        assert(model_name_field(name) =~= seq![88u8, 68, 74, 45, 55, 48, 48] + zeros(13));
        lemma_ip_bytes_of_octets(192, 168, 10, 78);
        let pb = seq![2u8, 2, 200, 61, 252, 4, 30, 196, 192, 168, 10, 78, 1];
        assert(payload_bytes(payload, 2) =~= pb);
        let head = magic() + seq![6u8, 0] + (seq![88u8, 68, 74, 45, 55, 48, 48] + zeros(13)) + seq![1u8, 2, 0, 54];
        assert(frame(name, DeviceType::Cdj, MessageSubType::Status, payload, 0, 1, 0, 2, extra) == head + pb + extra);
        assert(head.len() == 36);
        assert(v@.subrange(0, 36) =~= head);
        assert(v@.subrange(36, 49) =~= pb);
        assert(v@.subrange(49, 180) =~= extra);
        assert(v@ =~= v@.subrange(0, 36) + v@.subrange(36, 49) + v@.subrange(49, 180));
        assert(v@ =~= frame(
            name,
            DeviceType::Cdj,
            MessageSubType::Status,
            payload,
            0,
            1,
            0,
            2,
            extra,
        ));
        lemma_decode_frame(name, DeviceType::Cdj, MessageSubType::Status, payload, 0, 1, 0, 2, extra);
    }
    v
}

} // verus!
