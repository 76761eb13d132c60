use prolink::protocol::{
    decode, model_name_parser, process_keep_alive_message, status_package, DecodeError,
    DeviceType, Error, Ipv4Address, KeepAliveMessage, MacAddr, MessageSubType, MessageType,
    Status, UdpMagic,
};

fn sample_message() -> KeepAliveMessage {
    KeepAliveMessage {
        msg_type: 6,
        model_name: "XDJ-700".to_string(),
        device_type: DeviceType::Cdj,
        msg_sub_type: MessageSubType::Status,
        msg_value: MessageType::Status(Status {
            player_number: 2,
            mac_address: MacAddr {
                a: 200,
                b: 61,
                c: 252,
                d: 4,
                e: 30,
                f: 196,
            },
            ip_addr: Ipv4Address::new(192, 168, 10, 78),
            device_count: 1,
        }),
    }
}

/// The magic, 26 header bytes, then `payload`.
fn datagram(msg_type: u8, name: &[u8], device: u8, sub: u8, payload: &[u8]) -> Vec<u8> {
    let mut v = b"Qspt1WmJOL".to_vec();
    v.push(msg_type);
    v.push(0);
    let mut field = name.to_vec();
    field.resize(20, 0);
    v.extend_from_slice(&field);
    v.push(0);
    v.push(device);
    v.push(0);
    v.push(sub);
    v.extend_from_slice(payload);
    v
}

#[test]
fn parse_status_package() {
    let input: &[u8] = &status_package()[10..];

    assert_eq!(
        KeepAliveMessage::parse(&input),
        Ok((&input[39..], sample_message()))
    );
}

#[test]
fn it_identifies_prolink_header() {
    let data: Vec<u8> = status_package();
    assert_eq!(UdpMagic::decode(&data).unwrap().1, UdpMagic);
    assert_eq!(
        UdpMagic::decode(&vec![82]),
        Err(DecodeError::MissingHeader),
    );
}

#[test]
fn sample_decodes_end_to_end() {
    let data = status_package();
    assert_eq!(data.len(), 180);
    assert_eq!(decode(&data), Ok(sample_message()));
    let (rest, _) = UdpMagic::decode(&data).unwrap();
    let (left, _) = KeepAliveMessage::parse(rest).unwrap();
    assert_eq!(left.len(), 180 - 10 - 26 - 13);
}

#[test]
fn missing_magic_is_reported() {
    assert_eq!(decode(&[]), Err(DecodeError::MissingHeader));
    assert_eq!(decode(&[82]), Err(DecodeError::MissingHeader));
    assert_eq!(decode(b"Qspt1WmJO"), Err(DecodeError::MissingHeader));
    let mut data = status_package();
    data[9] = b'M';
    assert_eq!(decode(&data), Err(DecodeError::MissingHeader));
    assert_eq!(
        process_keep_alive_message(&data),
        Err(Error::MissingHeaderError)
    );
}

#[test]
fn model_name_keeps_embedded_zero() {
    let mut field = vec![b'A', 0, b'B'];
    field.resize(20, 0);
    field.push(7);
    let (rest, name) = model_name_parser(&field).unwrap();
    assert_eq!(name, "A\u{0}B");
    assert_eq!(rest, &[7u8][..]);
    let (_, empty) = model_name_parser(&[0u8; 20]).unwrap();
    assert_eq!(empty, "");
    let (_, full) = model_name_parser(b"ABCDEFGHIJKLMNOPQRST").unwrap();
    assert_eq!(full, "ABCDEFGHIJKLMNOPQRST");
}

#[test]
fn model_name_errors() {
    assert_eq!(model_name_parser(&[65u8; 19]), Err(DecodeError::Truncated));
    let mut field = vec![0xffu8, 0xfe];
    field.resize(20, 0);
    assert_eq!(model_name_parser(&field), Err(DecodeError::MalformedText));
}

#[test]
fn status_payload_sample() {
    let bytes = [3u8, 9, 1, 2, 3, 4, 5, 6, 10, 0, 0, 7, 4, 99];
    let (rest, status) = Status::parse(&bytes).unwrap();
    assert_eq!(
        status,
        Status {
            player_number: 3,
            mac_address: MacAddr { a: 1, b: 2, c: 3, d: 4, e: 5, f: 6 },
            ip_addr: Ipv4Address::new(10, 0, 0, 7),
            device_count: 4,
        }
    );
    assert_eq!(status.ip_addr.bits, 0x0a000007);
    assert_eq!(rest, &[99u8][..]);
    assert_eq!(Status::parse(&bytes[..12]), Err(DecodeError::Truncated));
}

#[test]
fn fields_round_trip_through_decode() {
    let payload = [6u8, 0, 0xaa, 0xbb, 0xcc, 0xdd, 0xee, 0xff, 172, 16, 0, 1, 3];
    let data = datagram(6, b"DJM-900NXS2", 1, 0x00, &payload);
    let m = decode(&data).unwrap();
    assert_eq!(m.msg_type, 6);
    assert_eq!(m.model_name, "DJM-900NXS2");
    assert_eq!(m.device_type, DeviceType::Djm);
    assert_eq!(m.msg_sub_type, MessageSubType::StatusMixer);
    assert_eq!(
        m.msg_value,
        MessageType::Status(Status {
            player_number: 6,
            mac_address: MacAddr { a: 0xaa, b: 0xbb, c: 0xcc, d: 0xdd, e: 0xee, f: 0xff },
            ip_addr: Ipv4Address::new(172, 16, 0, 1),
            device_count: 3,
        })
    );
}

#[test]
fn marker_payloads_take_no_bytes() {
    let cases = [
        (10u8, MessageType::Hello, 0x25u8, MessageSubType::Hello),
        (4, MessageType::Number, 0x26, MessageSubType::Number),
        (0, MessageType::Mac, 0x2c, MessageSubType::Mac),
        (2, MessageType::Ip, 0x32, MessageSubType::Ip),
        (8, MessageType::Change, 0x29, MessageSubType::Change),
    ];
    for (sel, value, code, sub) in cases {
        let data = datagram(sel, b"rekordbox", 3, code, &[]);
        let m = decode(&data).unwrap();
        assert_eq!(m.msg_value, value);
        assert_eq!(m.msg_sub_type, sub);
        assert_eq!(m.device_type, DeviceType::Rekordbox);
        assert_eq!(m.model_name, "rekordbox");
    }
}

#[test]
fn each_decode_error() {
    let status = [1u8; 13];
    assert_eq!(decode(b"Qspt1WmJOL"), Err(DecodeError::Truncated));
    assert_eq!(
        decode(&datagram(6, b"CDJ", 2, 0x36, &status[..12])),
        Err(DecodeError::Truncated)
    );
    assert_eq!(
        decode(&datagram(6, &[0xc3], 2, 0x36, &status)),
        Err(DecodeError::MalformedText)
    );
    assert_eq!(
        decode(&datagram(6, b"CDJ", 4, 0x36, &status)),
        Err(DecodeError::UnknownDeviceType)
    );
    assert_eq!(
        decode(&datagram(6, b"CDJ", 2, 0x99, &status)),
        Err(DecodeError::UnknownSubType)
    );
    assert_eq!(
        decode(&datagram(7, b"CDJ", 2, 0x36, &status)),
        Err(DecodeError::UnknownMessageType)
    );
    assert_eq!(
        process_keep_alive_message(&datagram(7, b"CDJ", 2, 0x36, &status)),
        Err(Error::ParseError)
    );
    assert_eq!(DecodeError::Truncated.to_error(), Error::ParseError);
    assert_eq!(DecodeError::MissingHeader.to_error(), Error::MissingHeaderError);
}

#[test]
fn parsers_on_single_bytes() {
    assert_eq!(DeviceType::parse(&[2, 5]), Ok((&[5u8][..], DeviceType::Cdj)));
    assert_eq!(DeviceType::parse(&[]), Err(DecodeError::Truncated));
    assert_eq!(DeviceType::parse(&[0]), Err(DecodeError::UnknownDeviceType));
    assert_eq!(MessageSubType::parse(&[0x00]), Ok((&[][..], MessageSubType::StatusMixer)));
    assert_eq!(MessageSubType::parse(&[0x27]), Err(DecodeError::UnknownSubType));
    assert_eq!(MessageType::parse(&[1, 2], 10), Ok((&[1u8, 2][..], MessageType::Hello)));
    assert_eq!(MessageType::parse(&[], 6), Err(DecodeError::Truncated));
    assert_eq!(MacAddr::parse(&[1, 2, 3, 4, 5]), Err(DecodeError::Truncated));
}
