//! Classifying a frame's payload by its message number, and decoding the
//! kinds that have a decoder.
use vstd::prelude::*;
use crate::bits::{BitError, bits_in_range, bits_value, lemma_bits_value_bound, parse_bits};
use crate::frame::Frame;
use vstd::arithmetic::power2::lemma2_to64;

verus! {

/// The kind of an RTCM3 message, known by its 12-bit message number.
#[derive(Clone, Copy, Debug, PartialEq, Eq, Structural)]
pub enum MessageType {
    /// A message number without a named kind.
    Unknown { val: u16 },
    SystemParameters,
    StationaryRTKReferenceStationARPWithAntennaHeight,
    AntennaDescriptorAndSerialNumber,
    ReceiverWithAntennaDescriptors,
    GPSExtendedL1AndL2RTKObservables,
    GPSMSM7,
    GPSEphemerides,
    BeiDouEphemeris,
    BeiDouMSM7,
    GalileoEphemeris,
    GalileoMSM7,
    GalileoFNAVSatelliteEphemeris,
    GLONASSMSM7,
    GLONASSL1AndL2CodePhaseBiases,
    GLONASSEphemerides,
    QZSSMSM7,
    QZSSEphemerides,
}

/// What a decoder extracted from a payload.
#[derive(Clone, Copy, Debug, PartialEq, Eq, Structural)]
pub enum MessageInformation {
    /// The header of a full-resolution multiple signal message.
    MSM7 { message_number: u16, reference_station_id: u16, epoch_time: u32 },
    /// A recognised envelope whose content no decoder extracts.
    Unparsed,
}

/// The message number assigned to each named kind; `None` for `Unknown`.
pub open spec fn message_number(t: MessageType) -> Option<u16> {
    match t {
        MessageType::Unknown { .. } => None,
        MessageType::SystemParameters => Some(1013),
        MessageType::StationaryRTKReferenceStationARPWithAntennaHeight => Some(1006),
        MessageType::AntennaDescriptorAndSerialNumber => Some(1008),
        MessageType::ReceiverWithAntennaDescriptors => Some(1033),
        MessageType::GPSExtendedL1AndL2RTKObservables => Some(1004),
        MessageType::GPSMSM7 => Some(1077),
        MessageType::GPSEphemerides => Some(1019),
        MessageType::BeiDouEphemeris => Some(1042),
        MessageType::BeiDouMSM7 => Some(1127),
        MessageType::GalileoEphemeris => Some(1046),
        MessageType::GalileoMSM7 => Some(1097),
        MessageType::GalileoFNAVSatelliteEphemeris => Some(1045),
        MessageType::GLONASSMSM7 => Some(1087),
        MessageType::GLONASSL1AndL2CodePhaseBiases => Some(1230),
        MessageType::GLONASSEphemerides => Some(1020),
        MessageType::QZSSMSM7 => Some(1117),
        MessageType::QZSSEphemerides => Some(1044),
    }
}

/// `t` is the classification of message number `code`: the named kind with
/// that number, or `Unknown` carrying the code when no named kind has it.
pub open spec fn classifies_as(code: u16, t: MessageType) -> bool {
    match t {
        MessageType::Unknown { val } => val == code && forall|k: MessageType|
            #[trigger] message_number(k) != Some(code),
        _ => message_number(t) == Some(code),
    }
}

/// The message number of a payload: its first 12 bits.
pub open spec fn payload_code(payload: Seq<u8>) -> u16 {
    bits_value(payload, 0, 12) as u16
}

/// The kinds that share the multiple-signal-message header layout.
pub open spec fn is_msm7(t: MessageType) -> bool {
    ||| t is GPSMSM7
    ||| t is GLONASSMSM7
    ||| t is GalileoMSM7
    ||| t is QZSSMSM7
    ||| t is BeiDouMSM7
}

/// The MSM7 header of `payload`: message number (bits 0..12), reference
/// station identifier (bits 12..24) and epoch time (bits 24..54).
pub open spec fn msm7_header(payload: Seq<u8>) -> MessageInformation {
    MessageInformation::MSM7 {
        message_number: bits_value(payload, 0, 12) as u16,
        reference_station_id: bits_value(payload, 12, 12) as u16,
        epoch_time: bits_value(payload, 24, 30) as u32,
    }
}

/// What `decode` gives for `kind` on a payload long enough for its fields.
pub open spec fn decoded(kind: MessageType, payload: Seq<u8>) -> MessageInformation {
    if is_msm7(kind) {
        msm7_header(payload)
    } else {
        MessageInformation::Unparsed
    }
}

/// The named kind of message number `code`, or `Unknown` with the code.
pub fn kind_of_number(code: u16) -> (t: MessageType)
    ensures
        classifies_as(code, t),
{
    let t = match code {
        1004 => MessageType::GPSExtendedL1AndL2RTKObservables,
        1042 => MessageType::BeiDouEphemeris,
        1046 => MessageType::GalileoEphemeris,
        1127 => MessageType::BeiDouMSM7,
        1077 => MessageType::GPSMSM7,
        1087 => MessageType::GLONASSMSM7,
        1117 => MessageType::QZSSMSM7,
        1097 => MessageType::GalileoMSM7,
        1006 => MessageType::StationaryRTKReferenceStationARPWithAntennaHeight,
        1008 => MessageType::AntennaDescriptorAndSerialNumber,
        1033 => MessageType::ReceiverWithAntennaDescriptors,
        1230 => MessageType::GLONASSL1AndL2CodePhaseBiases,
        1013 => MessageType::SystemParameters,
        1019 => MessageType::GPSEphemerides,
        1020 => MessageType::GLONASSEphemerides,
        1045 => MessageType::GalileoFNAVSatelliteEphemeris,
        1044 => MessageType::QZSSEphemerides,
        _ => MessageType::Unknown { val: code },
    };
    proof {
        if t is Unknown {
            assert forall|k: MessageType| #[trigger] message_number(k) != Some(code) by {
                match k {
                    MessageType::Unknown { .. } => {},
                    _ => {},
                }
            }
        }
    }
    t
}

/// Classifies a payload by the message number in its first 12 bits. A payload
/// shorter than 12 bits is out of range.
pub fn classify(payload: &[u8]) -> (r: Result<MessageType, BitError>)
    ensures
        payload@.len() < 2 <==> r == Err::<MessageType, BitError>(BitError::OutOfRange),
        r matches Ok(t) ==> classifies_as(payload_code(payload@), t),
        payload@.len() >= 2 ==> r is Ok,
{
    proof {
        lemma2_to64();
        lemma_bits_value_bound(payload@, 0, 12);
    }
    match parse_bits(payload, 0, 12) {
        Err(e) => Err(e),
        Ok(code) => Ok(kind_of_number(code as u16)),
    }
}

/// Decodes the MSM7 header fields of `raw` at their fixed offsets and widths.
pub fn extract_msm7(raw: &[u8]) -> (r: Result<MessageInformation, BitError>)
    ensures
        !bits_in_range(raw@, 0, 54) <==> r == Err::<MessageInformation, BitError>(
            BitError::OutOfRange,
        ),
        bits_in_range(raw@, 0, 54) ==> r == Ok::<MessageInformation, BitError>(msm7_header(raw@)),
{
    proof {
        lemma2_to64();
        lemma_bits_value_bound(raw@, 0, 12);
        lemma_bits_value_bound(raw@, 12, 12);
        lemma_bits_value_bound(raw@, 24, 30);
    }
    let message_number = match parse_bits(raw, 0, 12) {
        Err(e) => return Err(e),
        Ok(v) => v as u16,
    };
    let reference_station_id = match parse_bits(raw, 12, 12) {
        Err(e) => return Err(e),
        Ok(v) => v as u16,
    };
    let epoch_time = match parse_bits(raw, 24, 30) {
        Err(e) => return Err(e),
        Ok(v) => v,
    };
    Ok(MessageInformation::MSM7 { message_number, reference_station_id, epoch_time })
}

/// Decodes `payload` as a message of kind `kind`. Kinds without a decoder give
/// `Unparsed`; a payload too short for a decoder's fields is out of range.
pub fn decode(kind: MessageType, payload: &[u8]) -> (r: Result<MessageInformation, BitError>)
    ensures
        is_msm7(kind) && !bits_in_range(payload@, 0, 54) <==> r == Err::<
            MessageInformation,
            BitError,
        >(BitError::OutOfRange),
        !(is_msm7(kind) && !bits_in_range(payload@, 0, 54)) ==> r == Ok::<
            MessageInformation,
            BitError,
        >(decoded(kind, payload@)),
{
    match kind {
        MessageType::GPSMSM7
        | MessageType::GLONASSMSM7
        | MessageType::GalileoMSM7
        | MessageType::QZSSMSM7
        | MessageType::BeiDouMSM7 => extract_msm7(payload),
        _ => Ok(MessageInformation::Unparsed),
    }
}

impl Frame {
    /// The kind of this frame's message.
    pub fn get_type(&self) -> (r: Result<MessageType, BitError>)
        ensures
            self@.len() < 2 <==> r == Err::<MessageType, BitError>(BitError::OutOfRange),
            r matches Ok(t) ==> classifies_as(payload_code(self@), t),
    {
        classify(self.payload())
    }

    /// The decoded content of this frame's message.
    pub fn get_information(&self) -> (r: Result<MessageInformation, BitError>)
        ensures
            r is Err <==> (self@.len() < 2 || (exists|t: MessageType|
                classifies_as(payload_code(self@), t) && is_msm7(t)) && !bits_in_range(
                self@,
                0,
                54,
            )),
            r matches Ok(info) ==> exists|t: MessageType|
                classifies_as(payload_code(self@), t) && info == decoded(t, self@),
    {
        match self.get_type() {
            Err(e) => Err(e),
            Ok(t) => decode(t, self.payload()),
        }
    }
}

} // verus!
