use hart::address::Address;
use hart::device::{
    answered, read_answer, read_request, write_requests, Device, Identity, FIRST, IDENTIFY,
    INVALID_SELECTION, LAST, MAX_CHUNK, NOT_IMPLEMENTED, OK, READ_PRIMARY_VARIABLE, READ_STREAM,
    TOO_FEW_BYTES, WRITE_STREAM,
};
use hart::error::HartError;

fn device() -> Device {
    Device::new(Identity {
        manufacturer: 0x26,
        device_type: 0xe5,
        device_id: 0x0a_1b2c,
    })
}

#[test]
fn command_zero_identifies_and_command_one_reads_the_variable() {
    let mut device = device().measuring(12, 4.5f32.to_bits());
    let zero = device.answer(IDENTIFY, &[]);
    assert_eq!(&zero[..2], &[OK, 0]);
    let identity = Identity::from_identify(answered(&zero).expect("ok")).expect("id");
    assert_eq!(&identity, device.identity());
    assert!(device.answers_to(&identity.address()));
    assert!(device.answers_to(&Address::Short(0)));
    assert!(!device.answers_to(&Address::Short(1)));
    let pv = device.answer(READ_PRIMARY_VARIABLE, &[]);
    assert_eq!(answered(&pv).expect("ok"), [12, 0x40, 0x90, 0, 0]);
    assert_eq!(device.answer(77, &[])[0], NOT_IMPLEMENTED);
    assert!(answered(&[NOT_IMPLEMENTED, 0]).is_err());
    assert!(answered(&[]).is_err());
    assert!(Identity::from_identify(&[1, 2, 3]).is_err());
}

#[test]
fn a_stream_is_written_in_chunks_and_read_back_in_chunks() {
    let mut device = device().chunking(4);
    let stream: Vec<u8> = (0..10).collect();
    let requests = write_requests(&stream, 3);
    assert_eq!(requests.len(), 4);
    assert_eq!(requests[0], [FIRST, 0, 1, 2]);
    assert_eq!(requests[3], [LAST, 9]);
    for request in &requests {
        assert_eq!(device.answer(WRITE_STREAM, request), [OK, 0]);
    }
    assert_eq!(device.held(), stream);
    let mut back = Vec::new();
    for index in 0.. {
        let answer = device.answer(READ_STREAM, &read_request(index));
        let (last, chunk) = read_answer(answered(&answer).expect("ok")).expect("chunk");
        back.extend_from_slice(chunk);
        if last {
            break;
        }
    }
    assert_eq!(back, stream);
    assert_eq!(
        device.answer(READ_STREAM, &read_request(3))[0],
        INVALID_SELECTION
    );
    assert_eq!(device.answer(READ_STREAM, &[1])[0], TOO_FEW_BYTES);
    assert_eq!(device.answer(WRITE_STREAM, &[])[0], TOO_FEW_BYTES);
    assert!(read_answer(&[]).is_err());
}

#[test]
fn an_empty_stream_is_one_chunk_each_way() {
    let mut device = device();
    assert_eq!(write_requests(&[], 100), vec![vec![FIRST | LAST]]);
    let _ = device.answer(WRITE_STREAM, &[FIRST | LAST]);
    assert!(device.held().is_empty());
    let answer = device.answer(READ_STREAM, &read_request(0));
    assert_eq!(answered(&answer).expect("ok"), [FIRST | LAST]);
}

#[test]
fn a_write_that_starts_over_forgets_what_came_before() {
    let mut device = device();
    let _ = device.answer(WRITE_STREAM, &[FIRST, 1, 2]);
    let _ = device.answer(WRITE_STREAM, &[FIRST | LAST, 3]);
    assert_eq!(device.held(), [3]);
}

#[test]
fn a_new_device_reads_twenty_psi() {
    assert_eq!(device().primary_variable(), [6, 0x41, 0xa0, 0, 0]);
    let mut bits = vec![6];
    bits.extend(20.0f32.to_be_bytes());
    assert_eq!(device().primary_variable(), bits);
}

#[test]
fn an_identity_is_twelve_bytes_and_reads_back() {
    let identity = Identity {
        manufacturer: 0x26,
        device_type: 0xe5,
        device_id: 0x0a_1b2c,
    };
    let said = identity.identify();
    assert_eq!(
        said,
        [254, 0x26, 0xe5, 5, 5, 1, 1, 1, 0, 0x0a, 0x1b, 0x2c]
    );
    assert_eq!(Identity::from_identify(&said), Ok(identity));
    assert_eq!(
        Identity::from_identify(&said[..11]),
        Err(HartError::NotAnIdentity)
    );
    let mut other = said.clone();
    other[0] = 253;
    assert_eq!(
        Identity::from_identify(&other),
        Err(HartError::NotAnIdentity)
    );
    let wide = Identity {
        manufacturer: 0xff,
        device_type: 0,
        device_id: 0xff00_0007,
    };
    assert_eq!(
        Identity::from_identify(&wide.identify()),
        Ok(Identity {
            manufacturer: 0xff,
            device_type: 0,
            device_id: 7
        })
    );
}

#[test]
fn a_polling_address_is_six_bits() {
    let device = device().at_polling_address(0x43);
    assert!(device.answers_to(&Address::Short(3)));
    assert!(!device.answers_to(&Address::Short(0x43)));
    assert!(!device.answers_to(&Address::Long {
        manufacturer: 0x26,
        device_type: 0xe5,
        device_id: 1
    }));
}

#[test]
fn a_refusal_leaves_the_device_as_it_was() {
    let mut device = device();
    let _ = device.answer(WRITE_STREAM, &[FIRST | LAST, 1, 2]);
    let _ = device.answer(WRITE_STREAM, &[FIRST, 3]);
    assert_eq!(device.answer(WRITE_STREAM, &[]), [TOO_FEW_BYTES, 0]);
    assert_eq!(device.answer(READ_STREAM, &[0, 0, 0, 0, 0]), [TOO_FEW_BYTES, 0]);
    assert_eq!(
        device.answer(READ_STREAM, &read_request(u32::MAX)),
        [INVALID_SELECTION, 0]
    );
    assert_eq!(device.answer(258, &[]), [NOT_IMPLEMENTED, 0]);
    assert_eq!(device.held(), [1, 2]);
    assert_eq!(device.answer(WRITE_STREAM, &[LAST, 4]), [OK, 0]);
    assert_eq!(device.held(), [3, 4]);
    assert_eq!(device.answer(WRITE_STREAM, &[LAST]), [OK, 0]);
    assert!(device.held().is_empty());
}

#[test]
fn status_bytes_are_read_off_an_answer() {
    assert_eq!(answered(&[OK, 0x20, 7, 8]), Ok(&[7u8, 8][..]));
    assert_eq!(answered(&[OK, 0]), Ok(&[][..]));
    assert_eq!(answered(&[OK]), Err(HartError::ResponseCode(0)));
    assert_eq!(answered(&[5, 0, 1]), Err(HartError::ResponseCode(5)));
    assert_eq!(answered(&[]), Err(HartError::NoStatus));
    assert_eq!(read_answer(&[LAST, 1]), Ok((true, &[1u8][..])));
    assert_eq!(read_answer(&[FIRST]), Ok((false, &[][..])));
    assert_eq!(read_answer(&[]), Err(HartError::NoFlags));
    assert_eq!(read_request(0x0102_0304), [1, 2, 3, 4]);
}

#[test]
fn chunks_hold_from_one_byte_to_a_frames_worth() {
    let stream: Vec<u8> = (0..=255).cycle().take(600).collect();
    assert_eq!(write_requests(&stream, 0).len(), 600);
    assert_eq!(write_requests(&stream, 1)[599], [LAST, stream[599]]);
    let most = write_requests(&stream, usize::MAX);
    assert_eq!(most.len(), 3);
    assert_eq!(most[0].len(), MAX_CHUNK + 1);
    assert_eq!(most[1][0], 0);
    assert_eq!(most[2].len(), 600 - 2 * MAX_CHUNK + 1);
    let exact = write_requests(&stream[..504], MAX_CHUNK);
    assert_eq!(exact.len(), 2);
    assert_eq!(exact[1][0], LAST);
}

#[test]
fn streams_of_every_length_come_back_whole() {
    for length in [0, 1, 2, 3, 4, 5, 7, 8, 251, 252, 253, 1000] {
        for (size, chunk) in [(1, 1), (3, 4), (4, 3), (252, 252), (7, usize::MAX)] {
            let stream: Vec<u8> = (0..length).map(|n| (n % 251) as u8).collect();
            let mut device = device().chunking(chunk);
            for request in write_requests(&stream, size) {
                assert_eq!(device.answer(WRITE_STREAM, &request), [OK, 0]);
            }
            assert_eq!(device.held(), stream);
            let mut back = Vec::new();
            for index in 0.. {
                let answer = device.answer(READ_STREAM, &read_request(index));
                let (last, piece) = read_answer(answered(&answer).expect("ok")).expect("chunk");
                back.extend_from_slice(piece);
                if last {
                    break;
                }
            }
            assert_eq!(back, stream);
        }
    }
}

#[test]
fn a_device_that_reads_in_chunks_of_no_bytes_has_no_chunk_to_give() {
    let mut device = device().chunking(0);
    assert!(!device.can_answer(READ_STREAM, &read_request(0)));
    assert!(device.can_answer(READ_STREAM, &[1]));
    assert!(device.can_answer(WRITE_STREAM, &read_request(0)));
    assert_eq!(device.answer(READ_STREAM, &[1]), [TOO_FEW_BYTES, 0]);
    assert_eq!(device.answer(WRITE_STREAM, &[FIRST | LAST, 1]), [OK, 0]);
    assert_eq!(device.held(), [1]);
}
