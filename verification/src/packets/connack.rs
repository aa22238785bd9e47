use vstd::prelude::*;

verus! {

/// The CONNACK acknowledge-flags byte; only bit 0, session present, is
/// defined in MQTT 3.1.1.
#[derive(Clone, Copy, Debug, Default, PartialEq, Eq, Structural)]
pub struct AcknowledgeFlags {
    pub byte: u8,
}

impl AcknowledgeFlags {
    pub open spec fn spec_byte(self) -> u8 {
        self.byte
    }

    /// Whether the session-present bit is set.
    pub open spec fn spec_session_present(self) -> bool {
        self.byte % 2 == 1
    }

    /// Flags whose only set bit, if any, is session present.
    pub fn new(session_present: bool) -> (r: Self)
        ensures
            r.byte == (if session_present {
                1u8
            } else {
                0u8
            }),
            r.spec_session_present() == session_present,
    {
        AcknowledgeFlags {
            byte: if session_present {
                1
            } else {
                0
            },
        }
    }

    pub fn set_flags(&mut self, value: u8)
        ensures
            final(self).byte == value,
    {
        self.byte = value;
    }

    pub fn as_byte(&self) -> (r: u8)
        ensures
            r == self.byte,
    {
        self.byte
    }

    pub fn session_present(&self) -> (r: bool)
        ensures
            r == self.spec_session_present(),
    {
        self.byte % 2 == 1
    }

    pub fn set_session_present(&mut self, value: bool)
        ensures
            final(self).byte == (if value {
                1u8
            } else {
                0u8
            }),
            final(self).spec_session_present() == value,
    {
        self.byte = if value {
            1
        } else {
            0
        };
    }

    /// The flags encoded by a CONNACK acknowledge byte.
    pub fn from_byte(value: u8) -> (r: Self)
        ensures
            r.byte == value,
    {
        AcknowledgeFlags { byte: value }
    }
}

} // verus!
