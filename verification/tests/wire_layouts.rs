use siar::capability::descriptor::{BoundedBytes, CapabilityBits, CapabilityDescriptor, CapabilityParameters, CapabilityRequirement};
use siar::capability::encoding::encode_descriptors;
use siar::capability::id::{CapabilityId, CapabilityNamespace, NamespaceId};
use siar::capability::version::CapabilityVersion;
use siar::protocol::codec::encode_envelope;
use siar::protocol::message::{Envelope, StatusAudio, StatusVideo};

fn header(id: u64, name: &str, sent: u64, expires: Option<u64>) -> Vec<u8> {
    postcard::to_allocvec(&(id, name, sent, expires)).unwrap()
}

fn with_body<T: serde::Serialize>(head: Vec<u8>, body: &T) -> Vec<u8> {
    let mut out = head;
    out.extend(postcard::to_allocvec(body).unwrap());
    out
}

#[test]
fn every_body_kind_is_laid_out_as_postcard_lays_it_out() {
    let h = || header(1, "x", 2, None);
    assert_eq!(encode_envelope(&Envelope::text(1, 2, "x".to_string(), "hi".to_string())), with_body(h(), &(0u32, "hi", None::<u64>)));
    assert_eq!(
        encode_envelope(&Envelope::text_reply(1, 2, "x".to_string(), "re".to_string(), 4)),
        with_body(h(), &(0u32, "re", Some(4u64)))
    );
    assert_eq!(encode_envelope(&Envelope::hello(1, 2, "x".to_string())), with_body(h(), &2u32));
    assert_eq!(encode_envelope(&Envelope::ack(1, 2, "x".to_string(), 300)), with_body(h(), &(3u32, 300u64)));
    assert_eq!(encode_envelope(&Envelope::typing(1, 2, "x".to_string())), with_body(h(), &4u32));
    assert_eq!(encode_envelope(&Envelope::ping(1, 2, "x".to_string())), with_body(h(), &5u32));
    let status = Envelope::status(
        1,
        2,
        "x".to_string(),
        "away".to_string(),
        None,
        Some(StatusVideo { blake3_hash: "v".to_string(), size_bytes: 700 }),
        Some(StatusAudio { blake3_hash: "a".to_string(), size_bytes: 9 }),
        77,
    );
    assert_eq!(
        encode_envelope(&status),
        with_body(header(1, "x", 2, Some(77)), &(6u32, "away", None::<(String, u64)>, Some(("v", 700u64)), Some(("a", 9u64))))
    );
    assert_eq!(
        encode_envelope(&Envelope::avatar_update(1, 2, "x".to_string(), "cafe".to_string(), 10)),
        with_body(h(), &(7u32, "cafe", 10u64))
    );
    assert_eq!(
        encode_envelope(&Envelope::reaction(1, 2, "x".to_string(), 8, "👍".to_string(), true)),
        with_body(h(), &(8u32, 8u64, "👍", true))
    );
    assert_eq!(
        encode_envelope(&Envelope::edit(1, 2, "x".to_string(), 8, "new".to_string())),
        with_body(h(), &(9u32, 8u64, "new"))
    );
    assert_eq!(encode_envelope(&Envelope::delete(1, 2, "x".to_string(), 8)), with_body(h(), &(10u32, 8u64)));
    assert_eq!(
        encode_envelope(&Envelope::read_receipt(1, 2, "x".to_string(), 99999)),
        with_body(h(), &(11u32, 99999u64))
    );
}

#[test]
fn capability_descriptors_are_laid_out_as_postcard_lays_them_out() {
    let plain = CapabilityDescriptor::new(
        CapabilityId::new(CapabilityNamespace::Files, 300),
        CapabilityVersion::new(1, 2),
        CapabilityRequirement::Required,
        CapabilityParameters::U32(70000),
    );
    let custom = CapabilityDescriptor::new(
        CapabilityId::new(CapabilityNamespace::Application(NamespaceId(500)), 1),
        CapabilityVersion::new(2, 0),
        CapabilityRequirement::Optional,
        CapabilityParameters::Bytes(BoundedBytes::new(vec![1, 2, 3]).unwrap()),
    );
    let range = CapabilityDescriptor::new(
        CapabilityId::new(CapabilityNamespace::Dtn, 2),
        CapabilityVersion::new(1, 0),
        CapabilityRequirement::Optional,
        CapabilityParameters::RangeU32 { min: 5, max: 900 },
    );
    let bits = CapabilityDescriptor::new(
        CapabilityId::new(CapabilityNamespace::Core, 0),
        CapabilityVersion::new(1, 0),
        CapabilityRequirement::Required,
        CapabilityParameters::BitSet(CapabilityBits(1 << 40)),
    );
    let wide = CapabilityDescriptor::new(
        CapabilityId::new(CapabilityNamespace::Resource, 9),
        CapabilityVersion::new(3, 4),
        CapabilityRequirement::Optional,
        CapabilityParameters::U64(u64::MAX),
    );
    let empty = CapabilityDescriptor::new(
        CapabilityId::new(CapabilityNamespace::Media, 1),
        CapabilityVersion::new(1, 0),
        CapabilityRequirement::Optional,
        CapabilityParameters::Empty,
    );
    let reference = postcard::to_allocvec(&(
        6u32,
        ((4u32, 300u32), (1u16, 2u16), 0u32, (1u32, 70000u32)),
        ((11u32, 500u32, 1u32), (2u16, 0u16), 1u32, (5u32, vec![1u8, 2, 3])),
        ((7u32, 2u32), (1u16, 0u16), 1u32, (3u32, 5u32, 900u32)),
        ((0u32, 0u32), (1u16, 0u16), 0u32, (4u32, 1u64 << 40)),
        ((10u32, 9u32), (3u16, 4u16), 1u32, (2u32, u64::MAX)),
        ((8u32, 1u32), (1u16, 0u16), 1u32, 0u32),
    ))
    .unwrap();
    assert_eq!(encode_descriptors(&[plain, custom, range, bits, wide, empty]), reference);
}
