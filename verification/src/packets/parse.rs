use vstd::prelude::*;
use vstd::slice::{slice_index_get, slice_subrange};

use crate::error::MqttError;
use crate::packets::connack::AcknowledgeFlags;
use crate::packets::connect::{spec_flags_from_byte, Flags};
use crate::packets::enums::{
    ConnectReturnCode, PacketType, ProtocalVersion, QosLevel, SubackReturnCode,
};
use crate::packets::fixed_header::FixedHeader;
use crate::packets::packet::{
    mqtt_name_chars, view_topics, view_tuples, Packet, PacketV, VariableHeader, VariableHeaderV,
};
use crate::packets::utils::{
    parse_string, parse_u16, parse_varlen, unpack_bytes, unpack_string, unpack_u16,
};

verus! {

// ------------------------------------------------------------------
// What decoding means, over byte sequences
// ------------------------------------------------------------------

/// Read an optional length-prefixed string: present on the wire exactly when
/// its flag bit says so.
pub open spec fn parse_opt_string(present: bool, s: Seq<u8>, i: int) -> Result<
    (Option<Seq<char>>, int),
    MqttError,
> {
    if present {
        match parse_string(s, i) {
            Ok((t, j)) => Ok((Some(t), j)),
            Err(e) => Err(e),
        }
    } else {
        Ok((None, i))
    }
}

/// Read the CONNECT variable header and payload.
pub open spec fn parse_connect(body: Seq<u8>) -> Result<VariableHeaderV, MqttError> {
    match parse_string(body, 0) {
        Ok((pname, i1)) => if pname != mqtt_name_chars() {
            Err(MqttError::UnknownProtocol)
        } else if !(i1 + 2 <= body.len()) {
            Err(MqttError::RequiredByteMissing)
        } else if body[i1] != 4 {
            Err(MqttError::UnacceptableProtocolLevel)
        } else {
            let flags = spec_flags_from_byte(body[i1 + 1]);
            if flags.reserved {
                Err(MqttError::MalformedHeader)
            } else {
                match parse_u16(body, i1 + 2) {
                    Ok((keepalive, i2)) => match parse_string(body, i2) {
                        Ok((cid, i3)) => if cid.len() == 0 && !flags.clean_session {
                            Err(MqttError::ClientIdentifierRejected)
                        } else {
                            match parse_opt_string(flags.will, body, i3) {
                                Ok((wt, i4)) => match parse_opt_string(flags.will, body, i4) {
                                    Ok((wm, i5)) => match parse_opt_string(
                                        flags.username,
                                        body,
                                        i5,
                                    ) {
                                        Ok((usr, i6)) => match parse_opt_string(
                                            flags.password,
                                            body,
                                            i6,
                                        ) {
                                            Ok((psd, _i7)) => Ok(
                                                VariableHeaderV::Connect {
                                                    flags,
                                                    keepalive,
                                                    client_id: cid,
                                                    username: usr,
                                                    password: psd,
                                                    will_topic: wt,
                                                    will_message: wm,
                                                    protocol_version: ProtocalVersion::Four,
                                                },
                                            ),
                                            Err(e) => Err(e),
                                        },
                                        Err(e) => Err(e),
                                    },
                                    Err(e) => Err(e),
                                },
                                Err(e) => Err(e),
                            }
                        },
                        Err(e) => Err(e),
                    },
                    Err(e) => Err(e),
                }
            }
        },
        Err(e) => Err(e),
    }
}

/// Read the PUBLISH variable header: the topic, a packet identifier exactly
/// when QoS is above zero, and the rest of the body as the payload.
pub open spec fn parse_publish(fixed: FixedHeader, body: Seq<u8>) -> Result<
    VariableHeaderV,
    MqttError,
> {
    match parse_string(body, 0) {
        Ok((topic, i1)) => if fixed.qos >= 3 {
            Err(MqttError::Convertion)
        } else if fixed.qos > 0 {
            match parse_u16(body, i1) {
                Ok((pid, i2)) => Ok(
                    VariableHeaderV::Publish {
                        topic,
                        packet_id: Some(pid),
                        payload: body.subrange(i2, body.len() as int),
                    },
                ),
                Err(e) => Err(e),
            }
        } else {
            Ok(
                VariableHeaderV::Publish {
                    topic,
                    packet_id: None,
                    payload: body.subrange(i1, body.len() as int),
                },
            )
        },
        Err(e) => Err(e),
    }
}

/// Read SUBSCRIBE tuples until the body is exhausted.
pub open spec fn parse_tuples(s: Seq<u8>, i: int) -> Result<
    Seq<(Seq<char>, QosLevel)>,
    MqttError,
>
    decreases s.len() - i,
{
    if i >= s.len() {
        Ok(Seq::empty())
    } else {
        match parse_string(s, i) {
            Ok((t, j)) => if !(j < s.len()) {
                Err(MqttError::MalformedHeader)
            } else {
                match QosLevel::spec_from_u8(s[j]) {
                    Ok(q) => match parse_tuples(s, j + 1) {
                        Ok(rest) => Ok(seq![(t, q)] + rest),
                        Err(e) => Err(e),
                    },
                    Err(e) => Err(e),
                }
            },
            Err(e) => Err(e),
        }
    }
}

/// Read UNSUBSCRIBE topic filters until the body is exhausted.
pub open spec fn parse_topics(s: Seq<u8>, i: int) -> Result<Seq<Seq<char>>, MqttError>
    decreases s.len() - i,
{
    if i >= s.len() {
        Ok(Seq::empty())
    } else {
        match parse_string(s, i) {
            Ok((t, j)) => match parse_topics(s, j) {
                Ok(rest) => Ok(seq![t] + rest),
                Err(e) => Err(e),
            },
            Err(e) => Err(e),
        }
    }
}

/// Read SUBACK return codes until the body is exhausted.
pub open spec fn parse_codes(s: Seq<u8>, i: int) -> Result<Seq<SubackReturnCode>, MqttError>
    decreases s.len() - i,
{
    if i >= s.len() {
        Ok(Seq::empty())
    } else {
        match SubackReturnCode::spec_from_u8(s[i]) {
            Ok(c) => match parse_codes(s, i + 1) {
                Ok(rest) => Ok(seq![c] + rest),
                Err(e) => Err(e),
            },
            Err(e) => Err(e),
        }
    }
}

/// Read the variable header and payload that belongs to the packet type in
/// the fixed header.
pub open spec fn parse_body(fixed: FixedHeader, body: Seq<u8>) -> Result<
    VariableHeaderV,
    MqttError,
> {
    match fixed.ptype {
        PacketType::Connect => parse_connect(body),
        PacketType::Connack => if body.len() < 2 {
            Err(MqttError::MissingByte)
        } else {
            match ConnectReturnCode::spec_from_u8(body[1]) {
                Ok(rc) => Ok(
                    VariableHeaderV::ConnAck {
                        acknowledge_flags: AcknowledgeFlags { byte: body[0] },
                        return_code: rc,
                    },
                ),
                Err(e) => Err(e),
            }
        },
        PacketType::Publish => parse_publish(fixed, body),
        PacketType::Puback => match parse_u16(body, 0) {
            Ok((pid, _)) => Ok(VariableHeaderV::PubAck { packet_id: pid }),
            Err(e) => Err(e),
        },
        PacketType::Pubrec => match parse_u16(body, 0) {
            Ok((pid, _)) => Ok(VariableHeaderV::PubRec { packet_id: pid }),
            Err(e) => Err(e),
        },
        PacketType::Pubrel => match parse_u16(body, 0) {
            Ok((pid, _)) => Ok(VariableHeaderV::PubRel { packet_id: pid }),
            Err(e) => Err(e),
        },
        PacketType::Pubcomp => match parse_u16(body, 0) {
            Ok((pid, _)) => Ok(VariableHeaderV::PubComp { packet_id: pid }),
            Err(e) => Err(e),
        },
        PacketType::Subscribe => if !(fixed.dup == false && fixed.qos == 1 && fixed.retain
            == false) {
            Err(MqttError::MalformedHeader)
        } else {
            match parse_u16(body, 0) {
                Ok((pid, i1)) => match parse_tuples(body, i1) {
                    Ok(ts) => if ts.len() == 0 {
                        Err(MqttError::ProtocolViolation)
                    } else {
                        Ok(VariableHeaderV::Subscribe { packet_id: pid, tuples: ts })
                    },
                    Err(e) => Err(e),
                },
                Err(e) => Err(e),
            }
        },
        PacketType::Suback => match parse_u16(body, 0) {
            Ok((pid, i1)) => match parse_codes(body, i1) {
                Ok(cs) => Ok(VariableHeaderV::SubAck { packet_id: pid, return_codes: cs }),
                Err(e) => Err(e),
            },
            Err(e) => Err(e),
        },
        PacketType::Unsubscribe => match parse_u16(body, 0) {
            Ok((pid, i1)) => match parse_topics(body, i1) {
                Ok(ts) => if ts.len() == 0 {
                    Err(MqttError::ProtocolViolation)
                } else {
                    Ok(VariableHeaderV::Unsubscribe { packet_id: pid, tuples: ts })
                },
                Err(e) => Err(e),
            },
            Err(e) => Err(e),
        },
        PacketType::Unsuback => match parse_u16(body, 0) {
            Ok((pid, _)) => Ok(VariableHeaderV::UnsubAck { packet_id: pid }),
            Err(e) => Err(e),
        },
        PacketType::PingReq => Ok(VariableHeaderV::PingReq),
        PacketType::PingResp => Ok(VariableHeaderV::PingResp),
        PacketType::Disconnect => Ok(VariableHeaderV::Disconnect),
        PacketType::Auth => Err(MqttError::ReservedPacketType),
    }
}

/// Decode one packet from the front of a byte stream: the packet and how many
/// bytes of the input it occupied.
pub open spec fn spec_decode(s: Seq<u8>) -> Result<(PacketV, int), MqttError> {
    if s.len() < 1 {
        Err(MqttError::RequiredByteMissing)
    } else {
        let b = s[0];
        match PacketType::spec_from_u8(b / 16) {
            Ok(t) => match parse_varlen(s, 1) {
                Ok((rl, j)) => if j + rl > s.len() {
                    Err(MqttError::MalformedRemaingLength)
                } else {
                    let fixed = FixedHeader {
                        ptype: t,
                        dup: (b / 8) % 2 == 1,
                        qos: ((b / 2) % 4) as u8,
                        retain: b % 2 == 1,
                        remaining_len: rl as usize,
                    };
                    match parse_body(fixed, s.subrange(j, j + rl)) {
                        Ok(v) => Ok((PacketV { fixed, variable: v }, j + rl)),
                        Err(e) => Err(e),
                    }
                },
                Err(e) => Err(e),
            },
            Err(e) => Err(e),
        }
    }
}

// ------------------------------------------------------------------
// The executable decoder
// ------------------------------------------------------------------

/// Whether a string is exactly the protocol name "MQTT".
fn is_mqtt(s: &String) -> (r: bool)
    ensures
        r == (s@ == mqtt_name_chars()),
{
    let st = s.as_str();
    if st.unicode_len() != 4 {
        proof {
            assert(s@ != mqtt_name_chars());
        }
        false
    } else {
        let r = st.get_char(0) == 'M' && st.get_char(1) == 'Q' && st.get_char(2) == 'T'
            && st.get_char(3) == 'T';
        proof {
            if r {
                assert(s@ =~= mqtt_name_chars());
            } else {
                assert(s@ != mqtt_name_chars());
            }
        }
        r
    }
}

/// Read an optional string, present exactly when the flag bit is set.
fn unpack_opt_string(present: bool, body: &[u8], pos: usize) -> (r: Result<
    (Option<String>, usize),
    MqttError,
>)
    ensures
        r matches Ok((o, n)) ==> parse_opt_string(present, body@, pos as int) == Ok::<
            (Option<Seq<char>>, int),
            MqttError,
        >((crate::packets::packet::view_opt_string(o), n as int)),
        r matches Err(e) ==> parse_opt_string(present, body@, pos as int) == Err::<
            (Option<Seq<char>>, int),
            MqttError,
        >(e),
{
    if present {
        match unpack_string(body, pos) {
            Ok((s, n)) => Ok((Some(s), n)),
            Err(e) => Err(e),
        }
    } else {
        Ok((None, pos))
    }
}

/// Decode the CONNECT variable header and payload.
fn unpack_connect(body: &[u8]) -> (r: Result<VariableHeader, MqttError>)
    ensures
        r matches Ok(v) ==> parse_connect(body@) == Ok::<VariableHeaderV, MqttError>(v@),
        r matches Err(e) ==> parse_connect(body@) == Err::<VariableHeaderV, MqttError>(e),
{
    let (pname, i1) = match unpack_string(body, 0) {
        Ok(x) => x,
        Err(e) => {
            return Err(e);
        },
    };
    if !is_mqtt(&pname) {
        return Err(MqttError::UnknownProtocol);
    }
    if !(i1 < body.len() && body.len() - i1 >= 2) {
        return Err(MqttError::RequiredByteMissing);
    }
    let level = *slice_index_get(body, i1);
    if level != 4 {
        return Err(MqttError::UnacceptableProtocolLevel);
    }
    let flags = Flags::from_byte(*slice_index_get(body, i1 + 1));
    if flags.validate_flags() {
        return Err(MqttError::MalformedHeader);
    }
    let (keepalive, i2) = match unpack_u16(body, i1 + 2) {
        Ok(x) => x,
        Err(e) => {
            return Err(e);
        },
    };
    let (client_id, i3) = match unpack_string(body, i2) {
        Ok(x) => x,
        Err(e) => {
            return Err(e);
        },
    };
    if client_id.as_str().unicode_len() == 0 && !flags.clean_session() {
        return Err(MqttError::ClientIdentifierRejected);
    }
    let (will_topic, i4) = match unpack_opt_string(flags.will(), body, i3) {
        Ok(x) => x,
        Err(e) => {
            return Err(e);
        },
    };
    let (will_message, i5) = match unpack_opt_string(flags.will(), body, i4) {
        Ok(x) => x,
        Err(e) => {
            return Err(e);
        },
    };
    let (username, i6) = match unpack_opt_string(flags.has_username(), body, i5) {
        Ok(x) => x,
        Err(e) => {
            return Err(e);
        },
    };
    let (password, _i7) = match unpack_opt_string(flags.has_password(), body, i6) {
        Ok(x) => x,
        Err(e) => {
            return Err(e);
        },
    };
    Ok(
        VariableHeader::Connect {
            flags,
            keepalive,
            client_id,
            username,
            password,
            will_topic,
            will_message,
            protocol_version: ProtocalVersion::Four,
        },
    )
}

/// Decode the PUBLISH variable header and payload.
fn unpack_publish(fixed: &FixedHeader, body: &[u8]) -> (r: Result<VariableHeader, MqttError>)
    requires
        fixed.ptype == PacketType::Publish,
    ensures
        r matches Ok(v) ==> parse_publish(*fixed, body@) == Ok::<VariableHeaderV, MqttError>(v@),
        r matches Err(e) ==> parse_publish(*fixed, body@) == Err::<VariableHeaderV, MqttError>(e),
{
    let (topic, i1) = match unpack_string(body, 0) {
        Ok(x) => x,
        Err(e) => {
            return Err(e);
        },
    };
    let qos = match fixed.get_qos() {
        Ok(q) => q,
        Err(e) => {
            return Err(e);
        },
    };
    proof {
        assert(i1 <= body@.len());
    }
    match qos {
        QosLevel::AtMost => {
            let (payload, _) = match unpack_bytes(body, i1, body.len() - i1) {
                Ok(x) => x,
                Err(e) => {
                    return Err(e);
                },
            };
            Ok(VariableHeader::Publish { topic, packet_id: None, payload })
        },
        _ => {
            let (pid, i2) = match unpack_u16(body, i1) {
                Ok(x) => x,
                Err(e) => {
                    return Err(e);
                },
            };
            proof {
                assert(i2 <= body@.len());
            }
            let (payload, _) = match unpack_bytes(body, i2, body.len() - i2) {
                Ok(x) => x,
                Err(e) => {
                    return Err(e);
                },
            };
            Ok(VariableHeader::Publish { topic, packet_id: Some(pid), payload })
        },
    }
}

/// How a partial tuple parse combines with the tuples read so far.
spec fn glue_tuples(
    full: Result<Seq<(Seq<char>, QosLevel)>, MqttError>,
    acc: Seq<(Seq<char>, QosLevel)>,
    sub: Result<Seq<(Seq<char>, QosLevel)>, MqttError>,
) -> bool {
    match sub {
        Ok(rest) => full == Ok::<Seq<(Seq<char>, QosLevel)>, MqttError>(acc + rest),
        Err(e) => full == Err::<Seq<(Seq<char>, QosLevel)>, MqttError>(e),
    }
}

/// Decode SUBSCRIBE tuples from `start` to the end of the body.
fn unpack_tuples(body: &[u8], start: usize) -> (r: Result<Vec<(String, QosLevel)>, MqttError>)
    requires
        start <= body@.len(),
    ensures
        r matches Ok(ts) ==> parse_tuples(body@, start as int) == Ok::<
            Seq<(Seq<char>, QosLevel)>,
            MqttError,
        >(view_tuples(ts@)),
        r matches Err(e) ==> parse_tuples(body@, start as int) == Err::<
            Seq<(Seq<char>, QosLevel)>,
            MqttError,
        >(e),
{
    let ghost full = parse_tuples(body@, start as int);
    let mut tuples: Vec<(String, QosLevel)> = Vec::new();
    let mut pos = start;
    proof {
        assert(view_tuples(tuples@) =~= Seq::<(Seq<char>, QosLevel)>::empty());
        if full is Ok {
            assert(Seq::<(Seq<char>, QosLevel)>::empty() + full->Ok_0 =~= full->Ok_0);
        }
    }
    while pos < body.len()
        invariant
            pos <= body@.len(),
            full == parse_tuples(body@, start as int),
            glue_tuples(full, view_tuples(tuples@), parse_tuples(body@, pos as int)),
        decreases body@.len() - pos,
    {
        let ghost acc0 = view_tuples(tuples@);
        let (t, j) = match unpack_string(body, pos) {
            Ok(x) => x,
            Err(e) => {
                return Err(e);
            },
        };
        if !(j < body.len()) {
            return Err(MqttError::MalformedHeader);
        }
        let q = match QosLevel::from_u8(*slice_index_get(body, j)) {
            Ok(q) => q,
            Err(e) => {
                return Err(e);
            },
        };
        tuples.push((t, q));
        proof {
            assert(view_tuples(tuples@) =~= acc0 + seq![(t@, q)]);
            let sub = parse_tuples(body@, j + 1);
            if sub is Ok {
                assert(parse_tuples(body@, pos as int) == Ok::<
                    Seq<(Seq<char>, QosLevel)>,
                    MqttError,
                >(seq![(t@, q)] + sub->Ok_0));
                assert(acc0 + (seq![(t@, q)] + sub->Ok_0) =~= (acc0 + seq![(t@, q)])
                    + sub->Ok_0);
            } else {
                assert(parse_tuples(body@, pos as int) == sub);
            }
        }
        pos = j + 1;
    }
    proof {
        assert(parse_tuples(body@, pos as int) == Ok::<Seq<(Seq<char>, QosLevel)>, MqttError>(
            Seq::empty(),
        ));
        assert(view_tuples(tuples@) + Seq::<(Seq<char>, QosLevel)>::empty() =~= view_tuples(
            tuples@,
        ));
    }
    Ok(tuples)
}

/// How a partial topic parse combines with the topics read so far.
spec fn glue_topics(
    full: Result<Seq<Seq<char>>, MqttError>,
    acc: Seq<Seq<char>>,
    sub: Result<Seq<Seq<char>>, MqttError>,
) -> bool {
    match sub {
        Ok(rest) => full == Ok::<Seq<Seq<char>>, MqttError>(acc + rest),
        Err(e) => full == Err::<Seq<Seq<char>>, MqttError>(e),
    }
}

/// Decode UNSUBSCRIBE topic filters from `start` to the end of the body.
fn unpack_topics(body: &[u8], start: usize) -> (r: Result<Vec<String>, MqttError>)
    requires
        start <= body@.len(),
    ensures
        r matches Ok(ts) ==> parse_topics(body@, start as int) == Ok::<Seq<Seq<char>>, MqttError>(
            view_topics(ts@),
        ),
        r matches Err(e) ==> parse_topics(body@, start as int) == Err::<Seq<Seq<char>>, MqttError>(
            e,
        ),
{
    let ghost full = parse_topics(body@, start as int);
    let mut topics: Vec<String> = Vec::new();
    let mut pos = start;
    proof {
        assert(view_topics(topics@) =~= Seq::<Seq<char>>::empty());
        if full is Ok {
            assert(Seq::<Seq<char>>::empty() + full->Ok_0 =~= full->Ok_0);
        }
    }
    while pos < body.len()
        invariant
            pos <= body@.len(),
            full == parse_topics(body@, start as int),
            glue_topics(full, view_topics(topics@), parse_topics(body@, pos as int)),
        decreases body@.len() - pos,
    {
        let ghost acc0 = view_topics(topics@);
        let (t, j) = match unpack_string(body, pos) {
            Ok(x) => x,
            Err(e) => {
                return Err(e);
            },
        };
        topics.push(t);
        proof {
            assert(view_topics(topics@) =~= acc0 + seq![t@]);
            assert(pos < j <= body@.len());
            let sub = parse_topics(body@, j as int);
            if sub is Ok {
                assert(parse_topics(body@, pos as int) == Ok::<Seq<Seq<char>>, MqttError>(
                    seq![t@] + sub->Ok_0,
                ));
                assert(acc0 + (seq![t@] + sub->Ok_0) =~= (acc0 + seq![t@]) + sub->Ok_0);
            } else {
                assert(parse_topics(body@, pos as int) == sub);
            }
        }
        pos = j;
    }
    proof {
        assert(parse_topics(body@, pos as int) == Ok::<Seq<Seq<char>>, MqttError>(Seq::empty()));
        assert(view_topics(topics@) + Seq::<Seq<char>>::empty() =~= view_topics(topics@));
    }
    Ok(topics)
}

/// How a partial code parse combines with the codes read so far.
spec fn glue_codes(
    full: Result<Seq<SubackReturnCode>, MqttError>,
    acc: Seq<SubackReturnCode>,
    sub: Result<Seq<SubackReturnCode>, MqttError>,
) -> bool {
    match sub {
        Ok(rest) => full == Ok::<Seq<SubackReturnCode>, MqttError>(acc + rest),
        Err(e) => full == Err::<Seq<SubackReturnCode>, MqttError>(e),
    }
}

/// Decode SUBACK return codes from `start` to the end of the body.
fn unpack_codes(body: &[u8], start: usize) -> (r: Result<Vec<SubackReturnCode>, MqttError>)
    requires
        start <= body@.len(),
    ensures
        r matches Ok(cs) ==> parse_codes(body@, start as int) == Ok::<
            Seq<SubackReturnCode>,
            MqttError,
        >(cs@),
        r matches Err(e) ==> parse_codes(body@, start as int) == Err::<
            Seq<SubackReturnCode>,
            MqttError,
        >(e),
{
    let ghost full = parse_codes(body@, start as int);
    let mut codes: Vec<SubackReturnCode> = Vec::new();
    let mut pos = start;
    proof {
        assert(codes@ =~= Seq::<SubackReturnCode>::empty());
        if full is Ok {
            assert(Seq::<SubackReturnCode>::empty() + full->Ok_0 =~= full->Ok_0);
        }
    }
    while pos < body.len()
        invariant
            pos <= body@.len(),
            full == parse_codes(body@, start as int),
            glue_codes(full, codes@, parse_codes(body@, pos as int)),
        decreases body@.len() - pos,
    {
        let ghost acc0 = codes@;
        let c = match SubackReturnCode::from_u8(*slice_index_get(body, pos)) {
            Ok(c) => c,
            Err(e) => {
                return Err(e);
            },
        };
        codes.push(c);
        proof {
            assert(codes@ =~= acc0 + seq![c]);
            let sub = parse_codes(body@, pos + 1);
            if sub is Ok {
                assert(parse_codes(body@, pos as int) == Ok::<Seq<SubackReturnCode>, MqttError>(
                    seq![c] + sub->Ok_0,
                ));
                assert(acc0 + (seq![c] + sub->Ok_0) =~= (acc0 + seq![c]) + sub->Ok_0);
            } else {
                assert(parse_codes(body@, pos as int) == sub);
            }
        }
        pos = pos + 1;
    }
    proof {
        assert(parse_codes(body@, pos as int) == Ok::<Seq<SubackReturnCode>, MqttError>(
            Seq::empty(),
        ));
        assert(codes@ + Seq::<SubackReturnCode>::empty() =~= codes@);
    }
    Ok(codes)
}

/// Decode the variable part for the packet type in the fixed header.
#[verifier::rlimit(40)]
fn unpack_body(fixed: &FixedHeader, body: &[u8]) -> (r: Result<VariableHeader, MqttError>)
    ensures
        r matches Ok(v) ==> parse_body(*fixed, body@) == Ok::<VariableHeaderV, MqttError>(v@),
        r matches Err(e) ==> parse_body(*fixed, body@) == Err::<VariableHeaderV, MqttError>(e),
{
    match fixed.get_packet_type() {
        Ok(PacketType::Connect) => unpack_connect(body),
        Ok(PacketType::Connack) => {
            if body.len() < 2 {
                return Err(MqttError::MissingByte);
            }
            let flags_byte = *slice_index_get(body, 0);
            let rc_byte = *slice_index_get(body, 1);
            match ConnectReturnCode::from_u8(rc_byte) {
                Ok(rc) => Ok(
                    VariableHeader::ConnAck {
                        acknowledge_flags: AcknowledgeFlags::from_byte(flags_byte),
                        return_code: rc,
                    },
                ),
                Err(e) => Err(e),
            }
        },
        Ok(PacketType::Publish) => unpack_publish(fixed, body),
        Ok(PacketType::Puback) => match unpack_u16(body, 0) {
            Ok((pid, _)) => Ok(VariableHeader::PubAck { packet_id: pid }),
            Err(e) => Err(e),
        },
        Ok(PacketType::Pubrec) => match unpack_u16(body, 0) {
            Ok((pid, _)) => Ok(VariableHeader::PubRec { packet_id: pid }),
            Err(e) => Err(e),
        },
        Ok(PacketType::Pubrel) => match unpack_u16(body, 0) {
            Ok((pid, _)) => Ok(VariableHeader::PubRel { packet_id: pid }),
            Err(e) => Err(e),
        },
        Ok(PacketType::Pubcomp) => match unpack_u16(body, 0) {
            Ok((pid, _)) => Ok(VariableHeader::PubComp { packet_id: pid }),
            Err(e) => Err(e),
        },
        Ok(PacketType::Subscribe) => {
            if !(fixed.get_dup() == false && fixed.qos == 1 && fixed.get_retain()
                == false) {
                return Err(MqttError::MalformedHeader);
            }
            let (pid, i1) = match unpack_u16(body, 0) {
                Ok(x) => x,
                Err(e) => {
                    return Err(e);
                },
            };
            match unpack_tuples(body, i1) {
                Ok(ts) => {
                    if ts.len() == 0 {
                        return Err(MqttError::ProtocolViolation);
                    }
                    Ok(VariableHeader::Subscribe { packet_id: pid, tuples: ts })
                },
                Err(e) => Err(e),
            }
        },
        Ok(PacketType::Suback) => {
            let (pid, i1) = match unpack_u16(body, 0) {
                Ok(x) => x,
                Err(e) => {
                    return Err(e);
                },
            };
            match unpack_codes(body, i1) {
                Ok(cs) => Ok(VariableHeader::SubAck { packet_id: pid, return_codes: cs }),
                Err(e) => Err(e),
            }
        },
        Ok(PacketType::Unsubscribe) => {
            let (pid, i1) = match unpack_u16(body, 0) {
                Ok(x) => x,
                Err(e) => {
                    return Err(e);
                },
            };
            match unpack_topics(body, i1) {
                Ok(ts) => {
                    if ts.len() == 0 {
                        return Err(MqttError::ProtocolViolation);
                    }
                    Ok(VariableHeader::Unsubscribe { packet_id: pid, tuples: ts })
                },
                Err(e) => Err(e),
            }
        },
        Ok(PacketType::Unsuback) => match unpack_u16(body, 0) {
            Ok((pid, _)) => Ok(VariableHeader::UnsubAck { packet_id: pid }),
            Err(e) => Err(e),
        },
        Ok(PacketType::PingReq) => Ok(VariableHeader::PingReq),
        Ok(PacketType::PingResp) => Ok(VariableHeader::PingResp),
        Ok(PacketType::Disconnect) => Ok(VariableHeader::Disconnect),
        Ok(PacketType::Auth) => Err(MqttError::ReservedPacketType),
        Err(e) => Err(e),
    }
}

impl Packet {
    /// Decode one packet from the front of a buffered byte stream. On success
    /// the second component says how many bytes the packet occupied, so the
    /// caller can advance its reader exactly.
    pub fn unpack(bytes: &[u8]) -> (r: Result<(Packet, usize), MqttError>)
        ensures
            r matches Ok((p, n)) ==> spec_decode(bytes@) == Ok::<(PacketV, int), MqttError>(
                (p@, n as int),
            ),
            r matches Err(e) ==> spec_decode(bytes@) == Err::<(PacketV, int), MqttError>(e),
    {
        if bytes.len() < 1 {
            return Err(MqttError::RequiredByteMissing);
        }
        let b = *slice_index_get(bytes, 0);
        let t = match PacketType::from_u8(b / 16) {
            Ok(t) => t,
            Err(e) => {
                return Err(e);
            },
        };
        let (rl, rl_len) = match crate::packets::utils::decode_length(bytes, 1) {
            Ok(x) => x,
            Err(e) => {
                return Err(e);
            },
        };
        let j = 1 + rl_len;
        if rl > bytes.len() - j {
            return Err(MqttError::MalformedRemaingLength);
        }
        let body = slice_subrange(bytes, j, j + rl);
        let fixed = FixedHeader {
            ptype: t,
            dup: (b / 8) % 2 == 1,
            qos: (b / 2) % 4,
            retain: b % 2 == 1,
            remaining_len: rl,
        };
        match unpack_body(&fixed, body) {
            Ok(v) => Ok((Packet { fixed, variable: v }, j + rl)),
            Err(e) => Err(e),
        }
    }
}

} // verus!
