use id57::codec::{decode_base57, encode_base57};
use id57::error::Id57Error;
use id57::generator::{
    base57_encode, compose_identifier, decode57, extract_timestamp, extract_uuid, generate_id57,
    micros_since_epoch, IntegerValue, Supplied, IDENTIFIER_WIDTH, TIMESTAMP_WIDTH, UUID_WIDTH,
};

const TIMESTAMP_LIMIT: u128 = 20_635_899_893_042_801_193;

fn given(v: u128) -> Option<Supplied> {
    Some(Supplied::Integer(IntegerValue::InRange(v)))
}

#[test]
fn widths_add_up() {
    assert_eq!(TIMESTAMP_WIDTH, 11);
    assert_eq!(UUID_WIDTH, 22);
    assert_eq!(IDENTIFIER_WIDTH, TIMESTAMP_WIDTH + UUID_WIDTH);
}

#[test]
fn negative_value_is_refused_by_encode() {
    assert_eq!(
        base57_encode(Supplied::Integer(IntegerValue::Negative), None),
        Err(Id57Error::NegativeValue)
    );
    assert_eq!(
        base57_encode(Supplied::Integer(IntegerValue::Negative), Some(5)),
        Err(Id57Error::NegativeValue)
    );
}

#[test]
fn encode_takes_integers_only() {
    assert_eq!(
        base57_encode(Supplied::Integer(IntegerValue::InRange(57)), None),
        Ok("32".to_string())
    );
    assert_eq!(
        base57_encode(Supplied::Integer(IntegerValue::InRange(0)), Some(5)),
        Ok("22222".to_string())
    );
    assert_eq!(
        base57_encode(Supplied::Integer(IntegerValue::TooLarge), None),
        Err(Id57Error::NotConvertible)
    );
    assert_eq!(
        base57_encode(Supplied::Convertible(IntegerValue::InRange(57)), None),
        Err(Id57Error::NotConvertible)
    );
    assert_eq!(
        base57_encode(Supplied::Convertible(IntegerValue::Negative), None),
        Err(Id57Error::NegativeValue)
    );
    assert_eq!(base57_encode(Supplied::Unconvertible, None), Err(Id57Error::NotConvertible));
}

#[test]
fn decode57_decodes() {
    assert_eq!(decode57("32"), Ok(57));
    assert_eq!(decode57(""), Err(Id57Error::EmptyInput));
    assert_eq!(decode57("0"), Err(Id57Error::InvalidCharacter { character: '0', position: 0 }));
    assert_eq!(decode57("zzzzzzzzzzzzzzzzzzzzzzz"), Err(Id57Error::Overflow));
}

#[test]
fn micros_are_seconds_times_a_million_plus_truncated_nanos() {
    assert_eq!(micros_since_epoch(0, 0), 0);
    assert_eq!(micros_since_epoch(0, 999), 0);
    assert_eq!(micros_since_epoch(0, 1_000), 1);
    assert_eq!(micros_since_epoch(1, 999_999_999), 1_999_999);
    assert_eq!(micros_since_epoch(1_700_000_000, 123_456_789), 1_700_000_000_123_456);
    assert_eq!(micros_since_epoch(u64::MAX, 999_999_999), 18_446_744_073_709_551_615_999_999);
}

#[test]
fn supplied_timestamp_is_taken_as_it_is() {
    assert_eq!(extract_timestamp(given(0)), Ok(0));
    assert_eq!(extract_timestamp(given(u128::MAX)), Ok(u128::MAX));
}

#[test]
fn timestamp_must_be_a_non_negative_integer() {
    assert_eq!(
        extract_timestamp(Some(Supplied::Integer(IntegerValue::Negative))),
        Err(Id57Error::NegativeValue)
    );
    assert_eq!(
        extract_timestamp(Some(Supplied::Convertible(IntegerValue::Negative))),
        Err(Id57Error::NegativeValue)
    );
    assert_eq!(
        extract_timestamp(Some(Supplied::Integer(IntegerValue::TooLarge))),
        Err(Id57Error::NotConvertible)
    );
    assert_eq!(
        extract_timestamp(Some(Supplied::Convertible(IntegerValue::InRange(5)))),
        Err(Id57Error::NotConvertible)
    );
    assert_eq!(
        extract_timestamp(Some(Supplied::Convertible(IntegerValue::TooLarge))),
        Err(Id57Error::NotConvertible)
    );
    assert_eq!(extract_timestamp(Some(Supplied::Unconvertible)), Err(Id57Error::NotConvertible));
}

#[test]
fn clock_timestamp_is_after_2020_and_moves_on() {
    let first = extract_timestamp(None).unwrap();
    let second = extract_timestamp(None).unwrap();
    assert!(first > 1_577_836_800_000_000);
    assert!(first < TIMESTAMP_LIMIT);
    assert!(second >= first);
    assert!(second - first < 60_000_000);
}

#[test]
fn supplied_payload_is_taken_or_converted() {
    assert_eq!(extract_uuid(given(0)), Ok(0));
    assert_eq!(extract_uuid(given(u128::MAX)), Ok(u128::MAX));
    assert_eq!(extract_uuid(Some(Supplied::Convertible(IntegerValue::InRange(42)))), Ok(42));
}

#[test]
fn payload_must_convert_to_a_non_negative_integer() {
    assert_eq!(
        extract_uuid(Some(Supplied::Integer(IntegerValue::Negative))),
        Err(Id57Error::NegativeValue)
    );
    assert_eq!(
        extract_uuid(Some(Supplied::Convertible(IntegerValue::Negative))),
        Err(Id57Error::NegativeValue)
    );
    assert_eq!(
        extract_uuid(Some(Supplied::Integer(IntegerValue::TooLarge))),
        Err(Id57Error::NotConvertible)
    );
    assert_eq!(
        extract_uuid(Some(Supplied::Convertible(IntegerValue::TooLarge))),
        Err(Id57Error::NotConvertible)
    );
    assert_eq!(extract_uuid(Some(Supplied::Unconvertible)), Err(Id57Error::NotConvertible));
}

#[test]
fn random_payload_is_a_version_4_uuid() {
    let mut seen = Vec::new();
    for _ in 0..32 {
        let v = extract_uuid(None).unwrap();
        assert_eq!((v >> 76) & 0xf, 4);
        assert_eq!((v >> 62) & 0x3, 2);
        assert!(!seen.contains(&v));
        seen.push(v);
    }
}

#[test]
fn identifier_is_timestamp_then_payload() {
    assert_eq!(
        compose_identifier(1_700_000_000_000_000, 0xa1a2a3a4b1b2c1c2d1d2d3d4d5d6d7d8),
        "22HGcpYTMonWmEqUupqLgcMrNecnX6DVU"
    );
    assert_eq!(
        generate_id57(given(1_700_000_000_000_000), given(0xa1a2a3a4b1b2c1c2d1d2d3d4d5d6d7d8)),
        Ok("22HGcpYTMonWmEqUupqLgcMrNecnX6DVU".to_string())
    );
}

#[test]
fn identifier_of_zero_and_zero() {
    let id = generate_id57(given(0), given(0)).unwrap();
    assert_eq!(id.len(), 33);
    assert_eq!(id, "2".repeat(33));
}

#[test]
fn identifier_parts_decode_to_their_inputs() {
    let id = generate_id57(given(1234567890123456), given(u128::MAX)).unwrap();
    assert_eq!(id.len(), 33);
    assert_eq!(decode_base57(&id[..11]), Ok(1234567890123456));
    assert_eq!(decode_base57(&id[11..]), Ok(u128::MAX));
}

#[test]
fn identifier_has_33_characters_while_the_timestamp_fits() {
    for t in [0u128, 1, 1_700_000_000_000_000, TIMESTAMP_LIMIT - 1] {
        for p in [0u128, 1, u128::MAX] {
            assert_eq!(generate_id57(given(t), given(p)).unwrap().len(), 33);
            assert_eq!(compose_identifier(t, p).len(), 33);
        }
    }
    assert_eq!(generate_id57(given(0), None).unwrap().len(), 33);
    assert_eq!(generate_id57(None, given(0)).unwrap().len(), 33);
    assert_eq!(generate_id57(None, None).unwrap().len(), 33);
}

#[test]
fn timestamp_beyond_eleven_digits_widens_the_identifier() {
    assert_eq!(encode_base57(TIMESTAMP_LIMIT - 1, None), "zzzzzzzzzzz");
    assert_eq!(encode_base57(TIMESTAMP_LIMIT, None), "322222222222");
    assert_eq!(generate_id57(given(TIMESTAMP_LIMIT), given(0)).unwrap().len(), 34);
    assert_eq!(
        compose_identifier(TIMESTAMP_LIMIT, 1),
        "3222222222222222222222222222222223"
    );
}

#[test]
fn identifiers_sort_by_timestamp() {
    let payloads = [0u128, 1, 0xa1a2a3a4b1b2c1c2d1d2d3d4d5d6d7d8, u128::MAX];
    let times = [0u128, 1, 56, 57, 3248, 3249, 1_700_000_000_000_000, TIMESTAMP_LIMIT - 1];
    for i in 0..times.len() {
        for j in i + 1..times.len() {
            for payload_a in payloads {
                for payload_b in payloads {
                    let earlier = generate_id57(given(times[i]), given(payload_a)).unwrap();
                    let later = generate_id57(given(times[j]), given(payload_b)).unwrap();
                    assert!(earlier < later);
                }
            }
        }
    }
}

#[test]
fn generated_identifiers_differ_and_grow_with_time() {
    let first = generate_id57(None, None).unwrap();
    let second = generate_id57(None, None).unwrap();
    assert_ne!(first, second);
    assert!(first[..11] <= second[..11]);
    let payload = decode_base57(&first[11..]).unwrap();
    assert_eq!((payload >> 76) & 0xf, 4);
}

#[test]
fn generate_looks_at_the_timestamp_first() {
    assert_eq!(
        generate_id57(
            Some(Supplied::Integer(IntegerValue::Negative)),
            Some(Supplied::Unconvertible)
        ),
        Err(Id57Error::NegativeValue)
    );
    assert_eq!(
        generate_id57(
            Some(Supplied::Unconvertible),
            Some(Supplied::Integer(IntegerValue::Negative))
        ),
        Err(Id57Error::NotConvertible)
    );
    assert_eq!(
        generate_id57(given(5), Some(Supplied::Integer(IntegerValue::Negative))),
        Err(Id57Error::NegativeValue)
    );
    assert_eq!(
        generate_id57(given(5), Some(Supplied::Unconvertible)),
        Err(Id57Error::NotConvertible)
    );
}

#[test]
fn generate_accepts_a_convertible_payload() {
    assert_eq!(
        generate_id57(given(57), Some(Supplied::Convertible(IntegerValue::InRange(57)))),
        Ok("222222222322222222222222222222232".to_string())
    );
}
