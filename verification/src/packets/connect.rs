use vstd::prelude::*;

use crate::error::MqttError;
use crate::packets::enums::QosLevel;

verus! {

/// The CONNECT flags byte: presence bits for the payload fields, the will
/// QoS and retain settings, the clean-session bit, and the reserved bit 0.
#[derive(Clone, Copy, Debug, Default, PartialEq, Eq, Structural)]
pub struct Flags {
    pub username: bool,
    pub password: bool,
    pub will_retain: bool,
    /// The raw two will-QoS bits; 3 is representable on the wire but invalid.
    pub will_qos: u8,
    pub will: bool,
    pub clean_session: bool,
    pub reserved: bool,
}

/// The CONNECT flags byte composed from its fields:
/// `(username << 7) | (password << 6) | (will_retain << 5) | (will_qos << 3)
/// | (will << 2) | (clean_session << 1) | reserved`.
pub open spec fn flags_byte(f: Flags) -> u8 {
    ((if f.username {
        128int
    } else {
        0int
    }) + (if f.password {
        64int
    } else {
        0int
    }) + (if f.will_retain {
        32int
    } else {
        0int
    }) + f.will_qos * 8 + (if f.will {
        4int
    } else {
        0int
    }) + (if f.clean_session {
        2int
    } else {
        0int
    }) + (if f.reserved {
        1int
    } else {
        0int
    })) as u8
}

impl Flags {
    /// Whether the will-QoS bits hold a defined level.
    pub open spec fn wf(self) -> bool {
        self.will_qos <= 2
    }

    pub open spec fn spec_clean_session(self) -> bool {
        self.clean_session
    }

    pub open spec fn spec_will(self) -> bool {
        self.will
    }

    pub open spec fn spec_will_qos(self) -> u8 {
        self.will_qos
    }

    pub open spec fn spec_will_retain(self) -> bool {
        self.will_retain
    }

    pub open spec fn spec_has_password(self) -> bool {
        self.password
    }

    pub open spec fn spec_has_username(self) -> bool {
        self.username
    }

    pub open spec fn spec_reserved(self) -> bool {
        self.reserved
    }

    pub fn new(
        clean_session: bool,
        will: bool,
        will_qos: QosLevel,
        will_retain: bool,
        password: bool,
        username: bool,
    ) -> (r: Self)
        ensures
            r == (Flags {
                username,
                password,
                will_retain,
                will_qos: will_qos.spec_u8(),
                will,
                clean_session,
                reserved: false,
            }),
            r.wf(),
    {
        Flags {
            username,
            password,
            will_retain,
            will_qos: will_qos.to_u8(),
            will,
            clean_session,
            reserved: false,
        }
    }

    /// True when the byte is invalid: the reserved bit 0 is set.
    pub fn validate_flags(&self) -> (r: bool)
        ensures
            r == self.reserved,
    {
        self.reserved
    }

    /// Whether the connection starts a new session rather than continuing one.
    pub fn clean_session(&self) -> (r: bool)
        ensures
            r == self.clean_session,
    {
        self.clean_session
    }

    /// Whether the payload carries a will topic and message.
    pub fn will(&self) -> (r: bool)
        ensures
            r == self.will,
    {
        self.will
    }

    /// The QoS for publishing the will message; fails on the reserved value 3.
    pub fn will_qos(&self) -> (r: Result<QosLevel, MqttError>)
        ensures
            r == QosLevel::spec_from_u8(self.will_qos),
    {
        QosLevel::from_u8(self.will_qos)
    }

    /// Whether the will message is to be retained when published.
    pub fn will_retain(&self) -> (r: bool)
        ensures
            r == self.will_retain,
    {
        self.will_retain
    }

    pub fn has_password(&self) -> (r: bool)
        ensures
            r == self.password,
    {
        self.password
    }

    pub fn has_username(&self) -> (r: bool)
        ensures
            r == self.username,
    {
        self.username
    }

    pub fn set_clean_session(&mut self, value: bool)
        ensures
            *final(self) == (Flags { clean_session: value, ..*old(self) }),
    {
        self.clean_session = value;
    }

    pub fn set_will_flag(&mut self, value: bool)
        ensures
            *final(self) == (Flags { will: value, ..*old(self) }),
    {
        self.will = value;
    }

    pub fn set_will_qos(&mut self, value: QosLevel)
        ensures
            *final(self) == (Flags { will_qos: value.spec_u8(), ..*old(self) }),
            final(self).wf(),
    {
        self.will_qos = value.to_u8();
    }

    pub fn set_will_retain(&mut self, value: bool)
        ensures
            *final(self) == (Flags { will_retain: value, ..*old(self) }),
    {
        self.will_retain = value;
    }

    pub fn set_has_password(&mut self, value: bool)
        ensures
            *final(self) == (Flags { password: value, ..*old(self) }),
    {
        self.password = value;
    }

    pub fn set_has_username(&mut self, value: bool)
        ensures
            *final(self) == (Flags { username: value, ..*old(self) }),
    {
        self.username = value;
    }

    /// The flags byte this value encodes to.
    pub fn as_byte(&self) -> (r: u8)
        requires
            self.will_qos <= 3,
        ensures
            r == flags_byte(*self),
    {
        (if self.username {
            128u8
        } else {
            0u8
        }) + (if self.password {
            64u8
        } else {
            0u8
        }) + (if self.will_retain {
            32u8
        } else {
            0u8
        }) + self.will_qos * 8 + (if self.will {
            4u8
        } else {
            0u8
        }) + (if self.clean_session {
            2u8
        } else {
            0u8
        }) + (if self.reserved {
            1u8
        } else {
            0u8
        })
    }

    /// Split a CONNECT flags byte into its fields.
    pub fn from_byte(value: u8) -> (r: Self)
        ensures
            r == spec_flags_from_byte(value),
            r.will_qos <= 3,
    {
        Flags {
            username: value / 128 == 1,
            password: (value / 64) % 2 == 1,
            will_retain: (value / 32) % 2 == 1,
            will_qos: (value / 8) % 4,
            will: (value / 4) % 2 == 1,
            clean_session: (value / 2) % 2 == 1,
            reserved: value % 2 == 1,
        }
    }
}

/// The fields encoded by a CONNECT flags byte.
pub open spec fn spec_flags_from_byte(value: u8) -> Flags {
    Flags {
        username: value / 128 == 1,
        password: (value / 64) % 2 == 1,
        will_retain: (value / 32) % 2 == 1,
        will_qos: ((value / 8) % 4) as u8,
        will: (value / 4) % 2 == 1,
        clean_session: (value / 2) % 2 == 1,
        reserved: value % 2 == 1,
    }
}

/// Splitting a composed flags byte gives the fields back.
pub proof fn lemma_flags_byte_roundtrip(f: Flags)
    requires
        f.will_qos <= 3,
    ensures
        spec_flags_from_byte(flags_byte(f)) == f,
{
    let u: int = if f.username {
        1
    } else {
        0
    };
    let p: int = if f.password {
        1
    } else {
        0
    };
    let wr: int = if f.will_retain {
        1
    } else {
        0
    };
    let wq = f.will_qos as int;
    let w: int = if f.will {
        1
    } else {
        0
    };
    let cs: int = if f.clean_session {
        1
    } else {
        0
    };
    let rv: int = if f.reserved {
        1
    } else {
        0
    };
    let b = u * 128 + p * 64 + wr * 32 + wq * 8 + w * 4 + cs * 2 + rv;
    assert(0 <= b <= 255);
    assert(flags_byte(f) == b as u8);
    assert(b / 128 == u && (b / 64) % 2 == p && (b / 32) % 2 == wr && (b / 8) % 4 == wq && (b / 4)
        % 2 == w && (b / 2) % 2 == cs && b % 2 == rv) by (nonlinear_arith)
        requires
            b == u * 128 + p * 64 + wr * 32 + wq * 8 + w * 4 + cs * 2 + rv && 0 <= u <= 1 && 0 <= p
                <= 1 && 0 <= wr <= 1 && 0 <= wq <= 3 && 0 <= w <= 1 && 0 <= cs <= 1 && 0 <= rv
                <= 1,
    ;
    assert(spec_flags_from_byte(flags_byte(f)) == f);
}

} // verus!
