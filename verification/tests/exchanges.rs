use hart::address::Address;
use hart::device::{Device, Identity};
use hart::error::HartError;
use hart::frame::{Frame, Kind};
use hart::loopback::OnTheBus;
use hart::transport::{Arrived, Exchange, HartTransport, ReadStream, Step, WriteStream};
use std::collections::VecDeque;

/// A bus in process: every device hears what is transmitted, and what they
/// answer waits to be heard.
struct Bus {
    devices: Vec<OnTheBus>,
    waiting: VecDeque<Vec<u8>>,
}

impl Bus {
    fn new(devices: Vec<Device>) -> Bus {
        Bus {
            devices: devices.into_iter().map(OnTheBus).collect(),
            waiting: VecDeque::new(),
        }
    }

    fn transmit(&mut self, bytes: &[u8]) {
        for device in &mut self.devices {
            if let Some(answer) = device.hear(bytes).expect("a frame") {
                self.waiting.push_back(answer);
            }
        }
    }

    fn receive(&mut self) -> Option<Vec<u8>> {
        self.waiting.pop_front()
    }

    fn identify(&mut self, master: &HartTransport) -> Result<Identity, HartError> {
        let mut exchange: Exchange = master.identify();
        self.transmit(&exchange.transmit());
        loop {
            let heard = self.receive();
            match exchange.hear_identity(heard.as_deref())? {
                Step::Done(identity) => return Ok(identity),
                Step::Listen(next) | Step::Transmit(next) => exchange = next,
            }
        }
    }

    fn write(&mut self, begun: WriteStream) -> Result<(), HartError> {
        let mut writes = begun;
        self.transmit(&writes.transmit());
        loop {
            let heard = self.receive();
            match writes.hear(heard.as_deref())? {
                Step::Done(()) => return Ok(()),
                Step::Listen(next) => writes = next,
                Step::Transmit(next) => {
                    writes = next;
                    self.transmit(&writes.transmit());
                }
            }
        }
    }

    fn read(&mut self, begun: ReadStream) -> Result<Arrived, HartError> {
        let mut reads = begun;
        self.transmit(&reads.transmit());
        loop {
            let heard = self.receive();
            match reads.hear(heard.as_deref())? {
                Step::Done(arrived) => return Ok(arrived),
                Step::Listen(next) => reads = next,
                Step::Transmit(next) => {
                    reads = next;
                    self.transmit(&reads.transmit());
                }
            }
        }
    }
}

fn identity() -> Identity {
    Identity {
        manufacturer: 0x26,
        device_type: 0xe5,
        device_id: 0x0a_1b2c,
    }
}

fn loopback() -> (HartTransport, Bus) {
    let (master, device) = HartTransport::loopback(10_000_000);
    let bus = Bus {
        devices: vec![device],
        waiting: VecDeque::new(),
    };
    (master, bus)
}

fn master(address: Address) -> HartTransport {
    HartTransport::new("loopback", address).timing_out_after(10_000_000)
}

#[test]
fn a_stream_goes_out_to_the_device_and_comes_back_whole() {
    let (master, mut bus) = loopback();
    let long: Vec<u8> = (0..3000u32)
        .map(|n| u8::try_from(n % 251).unwrap_or(0))
        .collect();
    let begun = master.send(Some("0"), &long).expect("sending");
    bus.write(begun).expect("round");
    let back = bus.read(master.read_stream()).expect("round");
    assert_eq!(back.bytes, long);
    assert_eq!(back.origin_uri, "hart://loopback/0?command=131");
    let begun = master.send(Some("26-e5-0a1b2c"), b"").expect("empty");
    bus.write(begun).expect("empty");
    assert!(bus
        .read(master.read_stream())
        .expect("reading")
        .bytes
        .is_empty());
}

#[test]
fn streams_at_the_edges_of_a_chunk_come_back_whole() {
    let (master, mut bus) = loopback();
    for length in [0, 1, 251, 252, 253, 503, 504, 505, 70_000] {
        let stream: Vec<u8> = (0..length).map(|n| (n % 256) as u8).collect();
        bus.write(master.send(None, &stream).expect("sending"))
            .expect("written");
        assert_eq!(bus.devices[0].0.held(), stream);
        assert_eq!(bus.read(master.read_stream()).expect("read").bytes, stream);
    }
}

#[test]
fn the_device_identifies_itself_and_bursts_its_variable() {
    let mut bus = Bus::new(vec![
        Device::new(identity()).measuring(12, 4.5f32.to_bits())
    ]);
    let master = master(Address::Short(0));
    assert_eq!(bus.identify(&master).expect("identify"), identity());
    assert!(
        master
            .receive(bus.receive().as_deref())
            .expect("quiet")
            .is_empty(),
        "nothing is not an error"
    );
    let spoken = bus.devices[0].burst().expect("burst");
    bus.waiting.push_back(spoken);
    let arrived = master.receive(bus.receive().as_deref()).expect("burst");
    assert_eq!(arrived.len(), 1);
    assert_eq!(arrived[0].bytes, [12, 0x40, 0x90, 0, 0]);
    assert_eq!(
        arrived[0].origin_uri,
        "hart://loopback/26-e5-0a1b2c?command=1&burst=true"
    );
}

#[test]
fn on_one_bus_only_the_polled_device_answers() {
    let other = Identity {
        manufacturer: 0x26,
        device_type: 0xe6,
        device_id: 0x00_0001,
    };
    let mut bus = Bus::new(vec![
        Device::new(identity()).at_polling_address(3),
        Device::new(other.clone()).at_polling_address(5),
    ]);
    let error = bus
        .identify(&master(Address::Short(0)))
        .expect_err("silence");
    assert!(error.retryable(), "a device may be slow to answer");
    assert!(
        master(Address::Short(0)).send(Some("64"), b"x").is_err(),
        "not an address"
    );
    assert_eq!(
        bus.identify(&master(Address::Short(3))).expect("three"),
        identity()
    );
    assert_eq!(
        bus.identify(&master(Address::Short(5))).expect("five"),
        other
    );
}

#[test]
fn a_master_waits_a_second_unless_told_otherwise() {
    let master = HartTransport::new("modem", Address::Short(7));
    assert_eq!(master.timeout(), 1_000_000_000);
    assert_eq!(master.address(), &Address::Short(7));
    assert_eq!(master.name(), "hart");
    let master = master.timing_out_after(5);
    assert_eq!(master.timeout(), 5);
    assert_eq!(master.clone().timeout(), 5);
    assert_eq!(master.origin(&identity().address()), "hart://modem/26-e5-0a1b2c");
}

#[test]
fn a_request_is_one_frame_from_a_master() {
    let master = master(Address::Short(0));
    let exchange = master
        .request(&Address::Short(2), 77, &[1, 2])
        .expect("request");
    let frame = Frame::decode(&exchange.transmit()).expect("frame");
    assert_eq!(
        frame,
        Frame::new(Kind::Stx, Address::Short(2), 77, &[1, 2]).expect("frame")
    );
    assert_eq!(
        master
            .request(&Address::Short(2), 77, &[0; 256])
            .err(),
        Some(HartError::TooMuchData)
    );
}

#[test]
fn an_exchange_ends_with_its_own_answer_and_no_other() {
    let master = master(Address::Short(2));
    let ask = || master.request(&Address::Short(2), 77, &[]).expect("request");
    let spoken = |kind, command, data: &[u8]| {
        Frame::new(kind, Address::Short(2), command, data)
            .expect("frame")
            .encode()
    };
    match ask().hear(Some(&spoken(Kind::Ack, 77, &[0, 0, 9]))) {
        Ok(Step::Done(data)) => assert_eq!(data, [9]),
        other => panic!("{other:?}"),
    }
    match ask().hear(Some(&spoken(Kind::Back, 77, &[0, 0, 9]))) {
        Ok(Step::Listen(next)) => assert_eq!(next.transmit(), ask().transmit()),
        other => panic!("{other:?}"),
    }
    assert!(matches!(
        ask().hear(Some(&spoken(Kind::Stx, 77, &[]))),
        Ok(Step::Listen(_))
    ));
    assert_eq!(
        ask().hear(Some(&spoken(Kind::Ack, 78, &[0, 0]))).err(),
        Some(HartError::AnswerToSomethingElse)
    );
    assert_eq!(
        ask().hear(Some(&spoken(Kind::Ack, 77, &[64, 0]))).err(),
        Some(HartError::ResponseCode(64))
    );
    assert_eq!(
        ask().hear(Some(&spoken(Kind::Ack, 77, &[]))).err(),
        Some(HartError::NoStatus)
    );
    assert_eq!(ask().hear(None).err(), Some(HartError::NoAnswer));
    assert_eq!(ask().hear(Some(&[1])).err(), Some(HartError::FewPreambles));
    assert_eq!(
        master
            .identify()
            .hear_identity(Some(&spoken(Kind::Ack, 0, &[0, 0, 9])))
            .err(),
        Some(HartError::NotAnIdentity)
    );
    assert_eq!(
        master
            .read_stream()
            .hear(Some(&spoken(Kind::Ack, 131, &[0, 0])))
            .err(),
        Some(HartError::NoFlags)
    );
}

#[test]
fn a_device_answers_requests_to_it_and_is_silent_on_the_rest() {
    let mut device = OnTheBus(Device::new(identity()).at_polling_address(3).chunking(300));
    let to = |kind, address, command, data: &[u8]| {
        Frame::new(kind, address, command, data)
            .expect("frame")
            .encode()
    };
    assert_eq!(
        device.hear(&to(Kind::Stx, Address::Short(4), 0, &[])),
        Ok(None)
    );
    assert_eq!(
        device.hear(&to(Kind::Ack, Address::Short(3), 0, &[])),
        Ok(None)
    );
    let answer = device
        .hear(&to(Kind::Stx, Address::Short(3), 77, &[]))
        .expect("heard")
        .expect("answered");
    assert_eq!(
        Frame::decode(&answer),
        Frame::new(Kind::Ack, Address::Short(3), 77, &[64, 0])
    );
    assert!(matches!(
        device.hear(&to(Kind::Stx, identity().address(), 1, &[])),
        Ok(Some(_))
    ));
    assert_eq!(device.hear(&[0xff]), Err(HartError::FewPreambles));
    let mut first = vec![0x40];
    first.extend([7; 200]);
    let mut second = vec![0x80];
    second.extend([8; 200]);
    for request in [first, second] {
        assert!(matches!(
            device.hear(&to(Kind::Stx, Address::Short(3), 130, &request)),
            Ok(Some(_))
        ));
    }
    assert_eq!(
        device.hear(&to(Kind::Stx, Address::Short(3), 131, &[0, 0, 0, 0])),
        Err(HartError::TooMuchData)
    );
}

#[test]
fn an_answer_nobody_waited_for_arrives_too() {
    let master = master(Address::Short(0));
    let spoken = Frame::new(Kind::Ack, Address::Short(9), 130, &[0, 0, 5])
        .expect("frame")
        .encode();
    assert_eq!(
        master.receive_one(Some(&spoken)),
        Ok(Some(Arrived {
            origin_uri: "hart://loopback/9?command=130&burst=false".to_string(),
            bytes: vec![5],
        }))
    );
    assert_eq!(master.receive_one(None), Ok(None));
    assert_eq!(
        master.receive_one(Some(&[0xff, 0xff])),
        Err(HartError::CutBeforeChecksum)
    );
    let refused = Frame::new(Kind::Ack, Address::Short(9), 130, &[5, 0])
        .expect("frame")
        .encode();
    assert_eq!(
        master.receive(Some(&refused)),
        Err(HartError::ResponseCode(5))
    );
}

#[test]
fn a_target_names_an_address_or_leaves_the_masters() {
    let master = master(Address::Short(4));
    let address_of = |begun: WriteStream| Frame::decode(&begun.transmit()).expect("frame").address;
    let begun = master.send(None, b"x").expect("own");
    assert_eq!(address_of(begun), Address::Short(4));
    let begun = master.send(Some(""), b"x").expect("own");
    assert_eq!(address_of(begun), Address::Short(4));
    let begun = master.send(Some("7"), b"x").expect("named");
    assert_eq!(address_of(begun), Address::Short(7));
    assert_eq!(
        master.send(Some("64"), b"x").err(),
        Some(HartError::PollingOver63)
    );
    assert_eq!(
        master.send(Some("x"), b"x").err(),
        Some(HartError::NotAnAddress("x".to_string()))
    );
}

#[test]
fn a_device_says_what_it_can_hear() {
    let ask = |command, data: &[u8]| {
        Frame::new(Kind::Stx, Address::Short(0), command, data)
            .expect("frame")
            .encode()
    };
    let device = OnTheBus(Device::new(identity()).chunking(0));
    assert!(!device.can_hear(&ask(131, &[0, 0, 0, 0])));
    assert!(device.can_hear(&ask(131, &[0])));
    assert!(device.can_hear(&ask(0, &[])));
    assert!(device.can_hear(&[]));
    let device = OnTheBus(Device::new(identity()));
    assert!(device.can_hear(&ask(131, &[0, 0, 0, 0])));
}

#[test]
fn a_short_stream_comes_back_from_a_device_with_wide_chunks() {
    let mut bus = Bus::new(vec![Device::new(identity()).chunking(usize::MAX)]);
    let master = master(identity().address());
    bus.write(master.send(None, &[7; 252]).expect("sending"))
        .expect("written");
    assert_eq!(
        bus.read(master.read_stream()),
        Ok(Arrived {
            origin_uri: "hart://loopback/26-e5-0a1b2c?command=131".to_string(),
            bytes: vec![7; 252],
        })
    );
}

#[test]
fn a_burst_in_between_does_not_disturb_a_reading() {
    let mut bus = Bus::new(vec![Device::new(identity())]);
    let master = master(Address::Short(0));
    let spoken = bus.devices[0].burst().expect("burst");
    bus.waiting.push_back(spoken);
    assert_eq!(bus.identify(&master), Ok(identity()));
    bus.write(master.send(None, b"abc").expect("sending"))
        .expect("written");
    let spoken = bus.devices[0].burst().expect("burst");
    bus.waiting.push_back(spoken);
    assert_eq!(bus.read(master.read_stream()).expect("read").bytes, b"abc");
}

#[test]
fn an_address_wider_than_a_frame_reaches_what_the_frame_carries() {
    let mut bus = Bus::new(vec![Device::new(identity()).at_polling_address(6)]);
    assert_eq!(bus.identify(&master(Address::Short(70))), Ok(identity()));
    let wide = Identity {
        manufacturer: 0xe6,
        device_type: 0xe5,
        device_id: 0x0a_1b2c,
    };
    let mut bus = Bus::new(vec![Device::new(wide.clone())]);
    assert_eq!(
        bus.identify(&master(wide.address())),
        Err(HartError::NoAnswer)
    );
    let spoken = bus.devices[0].burst().expect("burst");
    let arrived = master(Address::Short(0))
        .receive_one(Some(&spoken))
        .expect("burst")
        .expect("arrived");
    assert_eq!(
        arrived.origin_uri,
        "hart://loopback/26-e5-0a1b2c?command=1&burst=true"
    );
    assert_eq!(arrived.bytes, [6, 0x41, 0xa0, 0, 0]);
}
