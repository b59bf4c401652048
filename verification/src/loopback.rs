//! A field device on a multi-drop bus, and both ends of one HART exchange on
//! it.
//!
//! [`OnTheBus`] is a field device as a device on a bus: it hears every frame
//! the master puts on the bus and answers the ones addressed to it, as a
//! transmitter on a real loop does; a device at another polling address keeps
//! silent. A device in burst mode speaks unasked, which [`OnTheBus::burst`]
//! puts on the bus. The loopback pair is a master and one device; the far end
//! is the device holding what the master wrote, read back a chunk at a time.

use crate::address::Address;
use crate::device::{
    opened, Device, DeviceView, Identity, MAX_CHUNK, OK, READ_PRIMARY_VARIABLE, TWENTY,
};
use crate::error::HartError;
use crate::frame;
use crate::frame::{Frame, FrameView, Kind, MAX_DATA};
use crate::transport::{HartTransport, MasterView};
use vstd::prelude::*;

verus! {

/// A field device as a device on the bus.
pub struct OnTheBus(pub Device);

impl View for OnTheBus {
    type V = DeviceView;

    open spec fn view(&self) -> DeviceView {
        self.0@
    }
}

/// The identity of the loopback's device.
pub open spec fn loopback_identity() -> Identity {
    Identity { manufacturer: 0x26, device_type: 0xe5, device_id: 0x0a_1b2c }
}

impl DeviceView {
    /// Whether these bytes are a request to this device.
    pub open spec fn is_asked(self, bytes: Seq<u8>) -> bool {
        match frame::decodes(bytes) {
            Ok(request) => request.kind == Kind::Stx && self.hears(request.address),
            Err(_) => false,
        }
    }

    /// Whether the device has an answer to these bytes if they are a request
    /// to it.
    pub open spec fn can_hear(self, bytes: Seq<u8>) -> bool {
        self.is_asked(bytes) ==> self.answerable(
            frame::decodes(bytes)->Ok_0.command as u16,
            frame::decodes(bytes)->Ok_0.data,
        )
    }

    /// The frame that answers a request.
    pub open spec fn answer_to(self, request: FrameView) -> FrameView {
        FrameView {
            kind: Kind::Ack,
            data: self.answering(request.command as u16, request.data),
            ..request
        }
    }

    /// What the device puts on the bus on hearing these bytes: the answer to a
    /// request to it, and nothing on any other frame.
    pub open spec fn reply(self, bytes: Seq<u8>) -> Result<Option<Seq<u8>>, HartError> {
        match frame::decodes(bytes) {
            Err(error) => Err(error),
            Ok(request) => if !self.is_asked(bytes) {
                Ok(None)
            } else if self.answer_to(request).data.len() > MAX_DATA {
                Err(HartError::TooMuchData)
            } else {
                Ok(Some(self.answer_to(request).encoding()))
            },
        }
    }

    /// What the device is once it has heard these bytes.
    pub open spec fn having_heard(self, bytes: Seq<u8>) -> DeviceView {
        if self.is_asked(bytes) {
            self.after(frame::decodes(bytes)->Ok_0.command as u16, frame::decodes(bytes)->Ok_0.data)
        } else {
            self
        }
    }

    /// The frame that a device in burst mode puts on the bus unasked.
    pub open spec fn bursting(self) -> FrameView {
        FrameView {
            kind: Kind::Back,
            address: self.identity.unique(),
            command: 1,
            data: self.answering(READ_PRIMARY_VARIABLE, Seq::empty()),
        }
    }
}

impl OnTheBus {
    /// The frame a device in burst mode puts on the bus unasked: its primary
    /// variable.
    ///
    /// # Errors
    /// A variable no frame carries, which none is.
    pub fn burst(&self) -> (spoken: Result<Vec<u8>, HartError>)
        ensures
            spoken matches Ok(bytes) && bytes@ == self@.bursting().encoding(),
    {
        let address: Address = self.0.identity().address();
        let data: Vec<u8> = opened(OK, self.0.primary_variable());
        assert(data@ =~= self@.bursting().data);
        match Frame::new(Kind::Back, address, 1, data.as_slice()) {
            Ok(frame) => Ok(frame.encode()),
            Err(error) => Err(error),
        }
    }

    /// Whether the device can hear these bytes: it can, unless they ask one
    /// that reads its Stream in chunks of no bytes for a chunk.
    #[must_use]
    pub fn can_hear(&self, bytes: &[u8]) -> (can: bool)
        ensures
            can == self@.can_hear(bytes@),
    {
        match Frame::decode(bytes) {
            Err(_) => true,
            Ok(frame) => frame.kind != Kind::Stx || !self.0.answers_to(&frame.address)
                || self.0.can_answer(frame.command as u16, frame.data.as_slice()),
        }
    }

    /// Hears what the bus carries, and answers a request to this device.
    ///
    /// # Errors
    /// Something that is not a frame, or an answer no frame carries.
    pub fn hear(&mut self, bytes: &[u8]) -> (reply: Result<Option<Vec<u8>>, HartError>)
        requires
            old(self)@.can_hear(bytes@),
        ensures
            match reply {
                Ok(Some(spoken)) => old(self)@.reply(bytes@) == Ok::<
                    Option<Seq<u8>>,
                    HartError,
                >(Some(spoken@)),
                Ok(None) => old(self)@.reply(bytes@) == Ok::<Option<Seq<u8>>, HartError>(None),
                Err(error) => old(self)@.reply(bytes@) == Err::<Option<Seq<u8>>, HartError>(error),
            },
            final(self)@ == old(self)@.having_heard(bytes@),
            old(self)@.wf() ==> final(self)@.wf(),
    {
        let frame: Frame = match Frame::decode(bytes) {
            Err(error) => {
                return Err(error);
            },
            Ok(frame) => frame,
        };
        if frame.kind != Kind::Stx || !self.0.answers_to(&frame.address) {
            return Ok(None);
        }
        let data: Vec<u8> = self.0.answer(frame.command as u16, frame.data.as_slice());
        match Frame::new(Kind::Ack, frame.address, frame.command, data.as_slice()) {
            Ok(answer) => Ok(Some(answer.encode())),
            Err(error) => Err(error),
        }
    }
}

impl HartTransport {
    /// Both ends of a bus called `loopback`: a master at polling address 0
    /// that waits `timeout` nanoseconds, and the device that answers it.
    #[must_use]
    pub fn loopback(timeout: u128) -> (ends: (HartTransport, OnTheBus))
        ensures
            ends.0@ == (MasterView { line: "loopback"@, address: Address::Short(0), timeout }),
            ends.1@ == (DeviceView {
                identity: loopback_identity(),
                polling: 0,
                units: 6,
                primary_variable: TWENTY,
                chunk: MAX_CHUNK as nat,
                held: Seq::empty(),
                arriving: Seq::empty(),
            }),
            ends.1@.wf(),
    {
        let device: Device = Device::new(
            Identity { manufacturer: 0x26, device_type: 0xe5, device_id: 0x0a_1b2c },
        );
        let master: HartTransport = HartTransport::new("loopback", Address::Short(0));
        (master.timing_out_after(timeout), OnTheBus(device))
    }
}

} // verus!
