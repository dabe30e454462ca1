use fnirsi::cfn::{read_cfn, read_f64, read_u16, read_u32, read_u8, sample_of, CfnError};
use fnirsi::float::{F32, F64};

fn plain(v: F64) -> f64 {
    f64::from_bits(v.bits)
}

/// A recording: channels as (type, with bounds), points as (time, values).
fn recording(rate: f64, channels: &[(u16, bool)], points: &[(f64, Vec<f64>)]) -> Vec<u8> {
    let mut bytes = Vec::new();
    bytes.extend_from_slice(&rate.to_le_bytes());
    for unused in [1u32, 2, 3] {
        bytes.extend_from_slice(&unused.to_le_bytes());
    }
    bytes.extend_from_slice(&(channels.len() as u16).to_le_bytes());
    for (channel_type, bounded) in channels {
        bytes.extend_from_slice(&channel_type.to_le_bytes());
        bytes.extend_from_slice(&[0xEE; 4]);
        bytes.push(u8::from(*bounded));
        if *bounded {
            bytes.extend_from_slice(&[0xDD; 16]);
        }
    }
    bytes.extend_from_slice(&(points.len() as u32).to_le_bytes());
    for (time, values) in points {
        bytes.extend_from_slice(&time.to_le_bytes());
        for v in values {
            bytes.extend_from_slice(&v.to_le_bytes());
        }
    }
    bytes
}

#[test]
fn points_are_read_by_channel_type() {
    let bytes = recording(
        50.0,
        &[(1, false), (0, true), (4, false), (6, true), (3, false), (2, false)],
        &[
            (0.5, vec![1.25, 5.0, 6.25, 99.0, 0.125, 0.25]),
            (0.75, vec![2.5, 9.0, 22.5, 98.0, 0.5, 0.75]),
        ],
    );
    let (points, rate) = read_cfn(&bytes).unwrap();
    assert_eq!(plain(rate), 50.0);
    assert_eq!(points.len(), 2);
    let p = &points[1];
    assert_eq!(plain(p.time), 0.75);
    assert_eq!(plain(p.voltage), 9.0);
    assert_eq!(plain(p.current), 2.5);
    assert_eq!(plain(p.power), 22.5);
    assert_eq!(plain(p.dp), 0.75);
    assert_eq!(plain(p.dn), 0.5);
    assert_eq!(plain(points[0].voltage), 5.0);
}

#[test]
fn missing_channels_are_zero_and_the_last_of_a_type_counts() {
    let bytes = recording(10.0, &[(0, false), (0, false)], &[(1.0, vec![3.0, 4.0])]);
    let (points, _) = read_cfn(&bytes).unwrap();
    assert_eq!(plain(points[0].voltage), 4.0);
    assert_eq!(points[0].current.bits, 0);
    assert_eq!(points[0].power.bits, 0);
}

#[test]
fn rate_that_is_not_positive_becomes_100_hz() {
    for rate in [0.0, -0.0, -25.0, f64::NEG_INFINITY] {
        let (_, usable) = read_cfn(&recording(rate, &[], &[])).unwrap();
        assert_eq!(plain(usable), 100.0);
    }
    let (_, kept) = read_cfn(&recording(0.001, &[], &[])).unwrap();
    assert_eq!(plain(kept), 0.001);
    let (_, odd) = read_cfn(&recording(f64::NAN, &[], &[])).unwrap();
    assert!(plain(odd).is_nan());
}

#[test]
fn every_truncation_is_refused() {
    let bytes = recording(
        50.0,
        &[(0, true), (1, false)],
        &[(0.5, vec![1.0, 2.0]), (0.75, vec![3.0, 4.0])],
    );
    assert!(read_cfn(&bytes).is_ok());
    for len in 0..bytes.len() {
        assert!(read_cfn(&bytes[..len]).is_err(), "length {len}");
    }
}

#[test]
fn bytes_behind_a_recording_are_ignored() {
    let mut bytes = recording(50.0, &[(0, false)], &[(0.5, vec![1.0])]);
    let alone = read_cfn(&bytes).unwrap();
    let extent = bytes.len();
    bytes.extend_from_slice(&[1, 2, 3]);
    assert_eq!(read_cfn(&bytes[..extent]).unwrap(), alone);
    assert!(read_cfn(&bytes[..extent - 1]).is_err());
    let (points, rate) = read_cfn(&bytes).unwrap();
    assert_eq!(points, alone.0);
    assert_eq!(rate, alone.1);
}

#[test]
fn truncation_tells_what_was_expected() {
    let bytes = recording(50.0, &[(0, true)], &[(0.5, vec![1.0])]);
    assert_eq!(read_cfn(&bytes[..7]), Err(CfnError::EofF64));
    assert_eq!(read_cfn(&bytes[..11]), Err(CfnError::EofU32));
    assert_eq!(read_cfn(&bytes[..21]), Err(CfnError::EofU16));
    assert_eq!(read_cfn(&bytes[..28]), Err(CfnError::EofU8));
    // The bounds are skipped, so what is missing there is the count behind.
    assert_eq!(read_cfn(&bytes[..30]), Err(CfnError::EofU32));
    assert_eq!(read_cfn(&bytes[..50]), Err(CfnError::EofF64));
    assert_eq!(CfnError::EofF64.describe(), "Unexpected EOF reading f64");
    assert_eq!(CfnError::EofU32.describe(), "Unexpected EOF reading u32");
    assert_eq!(CfnError::EofU16.describe(), "Unexpected EOF reading u16");
    assert_eq!(CfnError::EofU8.describe(), "Unexpected EOF reading u8");
}

#[test]
fn numbers_are_read_low_byte_first() {
    let bytes = [1u8, 2, 3, 4, 5, 6, 7, 8, 9];
    assert_eq!(read_u8(&bytes, 8), Ok((9, 9)));
    assert_eq!(read_u8(&bytes, 9), Err(CfnError::EofU8));
    assert_eq!(read_u16(&bytes, 1), Ok((0x0302, 3)));
    assert_eq!(read_u32(&bytes, 5), Ok((0x0908_0706, 9)));
    assert_eq!(read_u32(&bytes, 6), Err(CfnError::EofU32));
    assert_eq!(
        read_f64(&bytes, 0),
        Ok((
            F64 {
                bits: 0x0807_0605_0403_0201
            },
            8
        ))
    );
    assert_eq!(read_f64(&bytes, 2), Err(CfnError::EofF64));
    assert_eq!(read_u16(&bytes, 12), Err(CfnError::EofU16));
}

#[test]
fn samples_of_a_recording_have_no_temperature_or_registers() {
    let held = |v: f32| F32 { bits: v.to_bits() };
    let s = sample_of(1500, held(5.0), held(2.0), held(10.0), held(0.6), held(0.7));
    assert_eq!(s.timestamp_ms, 1500);
    assert_eq!((s.voltage_v, s.current_a, s.power_w), (held(5.0), held(2.0), held(10.0)));
    assert_eq!((s.dp_v, s.dn_v, s.temp_c), (held(0.6), held(0.7), held(0.0)));
    assert_eq!((s.raw_voltage, s.raw_current), (0, 0));
}
