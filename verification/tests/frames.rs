use hart::address::Address;
use hart::error::HartError;
use hart::frame::{checksum, Frame, Kind};

fn long_address() -> Address {
    Address::Long {
        manufacturer: 0x26,
        device_type: 0xe5,
        device_id: 0x0a_1b2c,
    }
}

#[test]
fn short_and_long_frames_round_trip_with_their_checksum() {
    let short = Frame::new(Kind::Stx, Address::Short(0), 0, &[]).expect("frame");
    let bytes = short.encode();
    assert_eq!(
        bytes,
        [0xff, 0xff, 0xff, 0xff, 0xff, 0x02, 0x80, 0x00, 0x00, 0x82]
    );
    assert_eq!(Frame::decode(&bytes).expect("decode"), short);
    let long = Frame::new(
        Kind::Ack,
        Address::Long {
            manufacturer: 0x26,
            device_type: 0xe5,
            device_id: 0x0a_1b2c,
        },
        1,
        &[0, 0, 0x20, 0x41, 0x20, 0, 0],
    )
    .expect("frame");
    let bytes = long.encode();
    assert_eq!(bytes[5], 0x86, "long frame ACK");
    assert_eq!(&bytes[6..11], &[0xa6, 0xe5, 0x0a, 0x1b, 0x2c]);
    assert_eq!(Frame::decode(&bytes).expect("decode"), long);
    let burst = Frame::new(Kind::Back, Address::Short(3), 1, &[0; 7]).expect("frame");
    assert_eq!(burst.encode()[6], 0xc3, "burst bit set");
    let mut two = burst.encode();
    two.extend(long.encode());
    let (first, taken) = Frame::read(&two).expect("first");
    assert_eq!(first, burst);
    assert_eq!(Frame::read(&two[taken..]).expect("second").0, long);
}

#[test]
fn what_is_not_a_frame_is_refused() {
    let frame = Frame::new(Kind::Stx, Address::Short(1), 1, &[]).expect("frame");
    let bytes = frame.encode();
    assert!(Frame::decode(&bytes[4..]).is_err(), "one preamble");
    let mut bad = bytes.clone();
    bad[5] = 0x03;
    assert!(Frame::decode(&bad).is_err(), "delimiter");
    let mut bad = bytes.clone();
    bad[9] ^= 1;
    assert!(Frame::decode(&bad).is_err(), "checksum");
    assert!(Frame::decode(&bytes[..8]).is_err(), "cut off");
    let mut trailing = bytes;
    trailing.push(0);
    assert!(Frame::decode(&trailing).is_err(), "bytes after");
    assert!(Frame::new(Kind::Stx, Address::Short(1), 1, &[0; 256]).is_err());
}

#[test]
fn an_address_reads_from_text_and_writes_back_to_it() {
    assert_eq!(Address::parse("7").expect("short"), Address::Short(7));
    assert_eq!(Address::Short(7).to_string(), "7");
    let long = Address::parse("26-e5-0a1b2c").expect("long");
    assert_eq!(
        long,
        Address::Long {
            manufacturer: 0x26,
            device_type: 0xe5,
            device_id: 0x0a_1b2c
        }
    );
    assert_eq!(long.to_string(), "26-e5-0a1b2c");
    assert!(Address::parse("64").is_err());
    assert!(Address::parse("zz").is_err());
    assert!(Address::parse("26-e5").is_err());
    assert!(Address::parse("26-e5-0a-1b").is_err());
}

#[test]
fn a_frame_is_measured_by_its_preambles_address_and_count() {
    let short = Frame::new(Kind::Stx, Address::Short(2), 0, &[1, 2]).expect("short");
    let long = Frame::new(Kind::Ack, long_address(), 1, &[9]).expect("long");
    for frame in [short, long] {
        let bytes = frame.encode();
        let whole = (1..=bytes.len())
            .find_map(|read| Frame::measure(&bytes[..read]).expect("measures"))
            .expect("a length");
        assert_eq!(whole, bytes.len());
    }
    assert!(Frame::measure(&[0xff, 0x02]).is_err(), "one preamble");
    assert!(Frame::measure(&[0xff; 21]).is_err(), "no end of preambles");
}

#[test]
fn a_length_is_known_from_the_byte_count_on() {
    let frame = Frame::new(Kind::Stx, Address::Short(2), 0, &[1, 2]).expect("frame");
    let bytes = frame.encode();
    assert_eq!(Frame::measure(&[]), Ok(None));
    assert_eq!(Frame::measure(&bytes[..8]), Ok(None));
    assert_eq!(Frame::measure(&bytes[..9]), Ok(Some(12)));
    assert_eq!(Frame::measure(&bytes), Ok(Some(12)));
    let mut more = bytes.clone();
    more.extend([0xff, 0x00]);
    assert_eq!(Frame::measure(&more), Ok(Some(12)));
    assert_eq!(Frame::measure(&[0xff; 20]), Ok(None));
    assert_eq!(Frame::measure(&[0xff; 21]), Err(HartError::EndlessPreambles));
    assert_eq!(Frame::measure(&[0xff, 0x02]), Err(HartError::FewPreambles));
    assert_eq!(Frame::measure(&[0x02]), Err(HartError::FewPreambles));
}

#[test]
fn every_refusal_of_bytes_says_which_it_is() {
    let frame = Frame::new(Kind::Stx, long_address(), 1, &[5, 6]).expect("frame");
    let bytes = frame.encode();
    assert_eq!(Frame::read(&bytes[4..]), Err(HartError::FewPreambles));
    assert_eq!(Frame::read(&[]), Err(HartError::FewPreambles));
    assert_eq!(Frame::read(&bytes[..5]), Err(HartError::CutBeforeChecksum));
    assert_eq!(Frame::read(&bytes[..6]), Err(HartError::CutInsideAddress));
    assert_eq!(Frame::read(&bytes[..10]), Err(HartError::CutInsideAddress));
    assert_eq!(Frame::read(&bytes[..11]), Err(HartError::CutBeforeChecksum));
    assert_eq!(
        Frame::read(&bytes[..bytes.len() - 1]),
        Err(HartError::CutBeforeChecksum)
    );
    let mut bad = bytes.clone();
    bad[5] = 0x8b;
    assert_eq!(Frame::read(&bad), Err(HartError::UnknownDelimiter(3)));
    let mut trailing = bytes.clone();
    trailing.push(0);
    assert_eq!(Frame::decode(&trailing), Err(HartError::TrailingBytes));
    assert_eq!(Frame::read(&trailing).map(|read| read.1), Ok(bytes.len()));
    assert_eq!(
        Frame::new(Kind::Stx, Address::Short(1), 1, &[0; 256]),
        Err(HartError::TooMuchData)
    );
}

#[test]
fn a_byte_changed_past_the_delimiter_does_not_check() {
    let frame = Frame::new(Kind::Ack, Address::Short(9), 130, &[0, 0, 7]).expect("frame");
    let bytes = frame.encode();
    for at in 6..bytes.len() {
        if at == 8 {
            continue;
        }
        for bit in 0..8 {
            let mut bad = bytes.clone();
            bad[at] ^= 1 << bit;
            assert_eq!(Frame::decode(&bad), Err(HartError::BadChecksum));
        }
    }
    let mut bad = bytes.clone();
    bad[5] = 0x02;
    assert_eq!(Frame::decode(&bad), Err(HartError::BadChecksum));
}

#[test]
fn every_cut_of_a_frame_is_refused() {
    let frame = Frame::new(Kind::Back, long_address(), 1, &[0, 0, 12]).expect("frame");
    let bytes = frame.encode();
    for upto in 0..bytes.len() {
        assert!(Frame::decode(&bytes[..upto]).is_err());
    }
    assert_eq!(Frame::decode(&bytes), Ok(frame));
}

#[test]
fn a_frame_carries_six_bits_and_three_bytes_of_an_address() {
    let frame = Frame::new(Kind::Stx, Address::Short(0xc5), 0, &[]).expect("frame");
    assert_eq!(
        Frame::decode(&frame.encode()).expect("short").address,
        Address::Short(5)
    );
    let wide = Address::Long {
        manufacturer: 0xe6,
        device_type: 0xff,
        device_id: 0x7f00_0001,
    };
    let frame = Frame::new(Kind::Stx, wide, 0, &[]).expect("frame");
    assert_eq!(
        Frame::decode(&frame.encode()).expect("long").address,
        Address::Long {
            manufacturer: 0x26,
            device_type: 0xff,
            device_id: 1
        }
    );
}

#[test]
fn more_than_five_preambles_and_the_unused_bits_are_read_over() {
    let bytes = [
        0xff, 0xff, 0xff, 0xff, 0xff, 0xff, 0xff, 0x02, 0x03, 0x00, 0x00, 0x01,
    ];
    let (frame, taken) = Frame::read(&bytes).expect("frame");
    assert_eq!(taken, 12);
    assert_eq!(frame.kind, Kind::Stx);
    assert_eq!(frame.address, Address::Short(3));
    let bytes = [0xff, 0xff, 0x7e, 0x40, 0x00, 0x00, 0x3e];
    assert_eq!(Frame::decode(&bytes).expect("frame").kind, Kind::Ack);
}

#[test]
fn data_past_the_byte_count_is_still_sent() {
    let frame = Frame {
        kind: Kind::Stx,
        address: Address::Short(0),
        command: 0,
        data: vec![1; 300],
    };
    let bytes = frame.encode();
    assert_eq!(bytes[8], 0xff);
    assert_eq!(bytes.len(), 310);
}

#[test]
fn a_checksum_is_the_xor_of_all_its_bytes() {
    assert_eq!(checksum(&[]), 0);
    assert_eq!(checksum(&[0x02, 0x80, 0, 0]), 0x82);
    assert_eq!(checksum(&[1, 2, 4, 8, 0xf0, 0xff]), 0x00);
}

#[test]
fn text_that_is_no_address_says_which_way() {
    assert_eq!(Address::parse("63"), Ok(Address::Short(63)));
    assert_eq!(Address::parse("64"), Err(HartError::PollingOver63));
    assert_eq!(Address::parse("255"), Err(HartError::PollingOver63));
    assert_eq!(Address::parse("007"), Ok(Address::Short(7)));
    assert_eq!(Address::parse("+7"), Ok(Address::Short(7)));
    for text in ["", "+", "++7", "256", "99999999999999999999", " 7", "7 ", "-", "--", "-7", "0x7", "٧"] {
        assert_eq!(
            Address::parse(text),
            Err(HartError::NotAnAddress(text.to_string()))
        );
    }
    for text in ["26-e5", "26-e5-", "26-e5-0a-1b", "126-e5-1", "26-e5-100000000", "g6-e5-1"] {
        assert_eq!(
            Address::parse(text),
            Err(HartError::NotAnAddress(text.to_string()))
        );
    }
    assert_eq!(
        Address::parse("FF-+0e-FFFFFFFF"),
        Ok(Address::Long {
            manufacturer: 0xff,
            device_type: 0x0e,
            device_id: 0xffff_ffff
        })
    );
}

#[test]
fn every_address_reads_back_from_its_text() {
    for polling in 0..=63 {
        let address = Address::Short(polling);
        assert_eq!(Address::parse(&address.to_string()), Ok(address));
    }
    for device_id in [0, 1, 0xff_ffff, 0x100_0000, u32::MAX] {
        let address = Address::Long {
            manufacturer: 0,
            device_type: 0xa0,
            device_id,
        };
        assert_eq!(Address::parse(&address.to_string()), Ok(address));
    }
    assert_eq!(Address::Short(200).to_string(), "200");
    let wide = Address::Long {
        manufacturer: 1,
        device_type: 2,
        device_id: 0x1234_5678,
    };
    assert_eq!(wide.to_string(), "01-02-12345678");
}

#[test]
fn every_error_has_its_words() {
    assert_eq!(HartError::FewPreambles.message(), "fewer than two preambles");
    assert_eq!(HartError::EndlessPreambles.message(), "no end of preambles");
    assert_eq!(
        HartError::UnknownDelimiter(3).message(),
        "a delimiter HART does not use: 0x03"
    );
    assert_eq!(
        HartError::CutInsideAddress.message(),
        "a frame cut off inside its address"
    );
    assert_eq!(
        HartError::CutBeforeChecksum.message(),
        "a frame cut off before its checksum"
    );
    assert_eq!(HartError::BadChecksum.message(), "a checksum that does not check");
    assert_eq!(HartError::TrailingBytes.message(), "bytes after the checksum");
    assert_eq!(
        HartError::TooMuchData.message(),
        "more data than one HART frame carries"
    );
    assert_eq!(
        Address::parse("z\"\n").expect_err("no address").message(),
        "\"z\\\"\\n\" is not a HART address"
    );
    assert_eq!(HartError::PollingOver63.message(), "a polling address over 63");
    assert_eq!(HartError::NotAnIdentity.message(), "not a command 0 answer");
    assert_eq!(HartError::NoStatus.message(), "an answer without its status bytes");
    assert_eq!(
        HartError::ResponseCode(64).message(),
        "the device answered with response code 64"
    );
    assert_eq!(HartError::NoFlags.message(), "a chunk without its flags");
    assert_eq!(
        HartError::AnswerToSomethingElse.message(),
        "an answer to something else"
    );
    assert_eq!(HartError::EndlessStream.message(), "a Stream that never ends");
    assert_eq!(HartError::NoAnswer.message(), "the device did not answer");
    assert!(HartError::NoAnswer.retryable());
    assert!(!HartError::ResponseCode(64).retryable());
}

#[test]
fn a_frame_from_another_sender_is_refused_cut_or_changed() {
    // Two preambles, a delimiter with an unused bit set, no master's bit.
    let bytes = [0xff, 0xff, 0x4e, 0x03, 0x01, 0x02, 0x00, 0x07, 0x49];
    let (frame, taken) = Frame::read(&bytes).expect("frame");
    assert_eq!(frame.kind, Kind::Ack);
    assert_eq!(frame.data, [0, 7]);
    assert_eq!(taken, bytes.len());
    for upto in 0..bytes.len() {
        assert!(Frame::read(&bytes[..upto]).is_err());
        let measured = if upto <= 5 { None } else { Some(9) };
        assert_eq!(Frame::measure(&bytes[..upto]), Ok(measured));
    }
    for at in [3, 4, 6, 7, 8] {
        let mut bad = bytes;
        bad[at] ^= 0x10;
        assert_eq!(Frame::read(&bad), Err(HartError::BadChecksum));
    }
    let mut bad = bytes;
    bad[2] = 0x46;
    assert_eq!(Frame::read(&bad), Err(HartError::BadChecksum));
    bad[2] = 0x44;
    assert_eq!(Frame::read(&bad), Err(HartError::UnknownDelimiter(4)));
}
