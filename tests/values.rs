use std::collections::HashSet;
use scl::{Base64Error, Blob, Date, DateTime, Decimal, Id, Time, Value};

fn float(f: f64) -> Value {
    Value::from_f64_bits(f.to_bits())
}

fn sample_struct(order: &[usize]) -> Value {
    let entries = vec![
        (Id::new("total_count"), Value::from(1i32)),
        (Id::with_metadata("id", "uuid"), Value::from_str_slice("85026ad9")),
        (Id::new("active"), Value::from(true)),
        (Id::new("ratio"), float(0.5)),
        (Id::new("items"), Value::list_from_iter(vec![Value::from(1i64), Value::from(2i64)])),
    ];
    let mut slots: Vec<Option<(Id, Value)>> = entries.into_iter().map(Some).collect();
    let picked: Vec<(Id, Value)> = order.iter().map(|&i| slots[i].take().unwrap()).collect();
    Value::struct_from_entries(picked)
}

#[test]
fn id_annotation_makes_ids_differ() {
    assert_ne!(Id::new("x"), Id::with_metadata("x", "m"));
    assert_ne!(Id::with_metadata("x", "m1"), Id::with_metadata("x", "m2"));
    assert_eq!(Id::with_metadata("x", "m"), Id::with_metadata("x", "m"));
    assert_ne!(Id::new("x"), Id::new("X"));
    assert_eq!(Id::with_metadata("x", "m").ident(), "x");
    assert_eq!(Id::with_metadata("x", "m").metadata().map(|s| s.as_str()), Some("m"));
    assert_eq!(Id::new("x").metadata(), None);
}

#[test]
fn float_nan_patterns_and_zero_signs() {
    let nan_a = f64::from_bits(0x7FF8_0000_0000_0001);
    let nan_b = f64::from_bits(0x7FF8_0000_0000_0002);
    assert_eq!(float(nan_a), float(nan_a));
    assert_eq!(float(nan_b), float(nan_b));
    assert_ne!(float(nan_a), float(nan_b));
    assert_ne!(float(0.0), float(-0.0));
    assert_eq!(float(1.5), float(1.5));
    assert_ne!(float(1.0), Value::from(1i64));
}

#[test]
fn float_bits_decomposition() {
    assert_eq!(scl::float_bits::decompose(1.0f64.to_bits()), (1u64 << 52, -52, 1));
    assert_eq!(scl::float_bits::decompose((-2.0f64).to_bits()), (1u64 << 52, -51, 0));
    assert_eq!(scl::float_bits::decompose(0.0f64.to_bits()), (0, -1075, 1));
    assert_eq!(scl::float_bits::decompose(1u64), (2, -1075, 1));
    // fraction bit 48 set and clear stay apart
    let a = 1.0f64.to_bits();
    let b = a | (1u64 << 48);
    assert_ne!(scl::float_bits::decompose(a), scl::float_bits::decompose(b));
    assert_ne!(float(f64::from_bits(a)), float(f64::from_bits(b)));
}

#[test]
fn base64_literal_encoding() {
    let blob = Blob::from_vec(b"Not a secret".to_vec());
    assert_eq!(blob.encode_base64(), "Tm90IGEgc2VjcmV0");
    assert_eq!(Blob::from_vec(b"ab".to_vec()).encode_base64(), "YWI=");
    assert_eq!(Blob::new().encode_base64(), "");
}

#[test]
fn base64_round_trip() {
    let samples: Vec<Vec<u8>> = vec![
        vec![],
        vec![0],
        vec![0xFF, 0x00],
        b"Not a secret".to_vec(),
        (0..=255u8).collect(),
    ];
    for bytes in samples {
        let blob = Blob::from_vec(bytes.clone());
        let text = blob.encode_base64();
        let back = Blob::decode_base64(text.as_bytes()).unwrap();
        assert_eq!(back, Blob::from_vec(bytes.clone()));
        let tagged = Blob::decode_base64_with_metadata(text.as_bytes(), "m").unwrap();
        assert_eq!(tagged, Blob::from_vec_with_metadata(bytes, "m"));
    }
}

#[test]
fn base64_decode_errors() {
    assert!(matches!(Blob::decode_base64(b"Tm9*"), Err(Base64Error::InvalidByte(3, b'*'))));
    assert!(matches!(Blob::decode_base64(b"Tm90I"), Err(Base64Error::InvalidLength(_))));
    assert!(matches!(Blob::decode_base64(b"YWI"), Err(Base64Error::InvalidPadding)));
    assert!(matches!(Blob::decode_base64(b"YWJ="), Err(Base64Error::InvalidLastSymbol(2, b'J'))));
    // the display form with a prefix is not decodable
    let shown = Blob::from_vec_with_metadata(b"ab".to_vec(), "m").to_display_string();
    assert_eq!(shown, "m:YWI=");
    assert!(Blob::decode_base64(shown.as_bytes()).is_err());
}

#[test]
fn blob_display_and_accessors() {
    let plain = Blob::from_vec(b"Not a secret".to_vec());
    assert_eq!(plain.to_display_string(), "Tm90IGEgc2VjcmV0");
    assert_eq!(plain.metadata(), None);
    let tagged = Blob::with_metadata("img");
    assert_eq!(tagged.metadata().map(|s| s.as_str()), Some("img"));
    assert_eq!(tagged.to_display_string(), "img:");
    assert!(Blob::with_capacity(16).capacity() >= 16);
    let mut grown = Blob::with_capacity(4);
    grown.write_all(b"abcdef");
    assert!(grown.capacity() >= 6);
    assert_eq!(grown, Blob::from_vec(b"abcdef".to_vec()));
    assert_eq!(Blob::with_capacity(64), Blob::new());
    assert_eq!(Blob::with_capacity(64).hash_code(), Blob::new().hash_code());
    let mut set = HashSet::new();
    set.insert(Blob::with_capacity(64));
    assert!(set.contains(&Blob::new()));
    assert!(Blob::with_capacity_and_metadata(8, "m").capacity() >= 8);
    assert_ne!(Blob::from_vec(vec![1]), Blob::from_vec_with_metadata(vec![1], "m"));
    assert_eq!(Blob::from_vec(vec![1, 2]).into_vec(), vec![1, 2]);
    assert_eq!(Blob::default(), Blob::new());
}

#[test]
fn blob_reads_bytes_and_text() {
    let mut blob = Blob::from_vec(b"ab".to_vec());
    let mut small = [9u8; 1];
    assert_eq!(blob.read(&mut small), 1);
    assert_eq!(small, [b'a']);
    let mut large = [9u8; 4];
    assert_eq!(blob.read(&mut large), 2);
    assert_eq!(large, [b'a', b'b', 9, 9]);
    let mut bytes = vec![7u8];
    assert_eq!(blob.read_to_end(&mut bytes), 2);
    assert_eq!(bytes, vec![7, b'a', b'b']);
    let mut text = String::from(">");
    assert_eq!(blob.read_to_string(&mut text), 4);
    assert_eq!(text, ">YWI=");
    assert_eq!(blob.write(b"c"), 1);
    blob.write_all(b"de");
    blob.flush();
    assert_eq!(blob.as_bytes(), b"abcde");
}

#[test]
fn decimal_value_compares_by_number() {
    let d = Value::from(Decimal::new(123456, 2));
    assert_eq!(d, Value::from(Decimal::new(123456, 2)));
    assert_eq!(d, Value::from(Decimal::new(1234560, 3)));
    assert_ne!(d, Value::from(Decimal::new(123457, 2)));
    assert_ne!(d, Value::from(1234i64));
    assert_ne!(d, float(1234.56));
    let big = Decimal::try_from_i128_with_scale(79228162514264337593543950335, 28).unwrap();
    assert_eq!(big.scale(), 28);
    assert!(Decimal::try_from_i128_with_scale(79228162514264337593543950336, 0).is_none());
    assert!(Decimal::try_from_i128_with_scale(1, 29).is_none());
    assert_eq!(Decimal::new(-5, 1).mantissa(), -5);
}

#[test]
fn naive_date_time_is_utc() {
    let date = Date::from_ymd_opt(2023, 2, 17).unwrap();
    let time = Time::from_hms_opt(14, 32, 16).unwrap();
    let naive = Value::from(DateTime::from_utc(date, time));
    let tagged = Value::DateTime(DateTime::from_utc(
        Date::from_ymd_opt(2023, 2, 17).unwrap(),
        Time::from_hms_nano_opt(14, 32, 16, 0).unwrap(),
    ));
    assert_eq!(naive, tagged);
    let dt = DateTime::from_utc(date, time);
    assert_eq!((dt.date().year(), dt.date().month(), dt.date().day()), (2023, 2, 17));
    assert_eq!(
        (dt.time().hour(), dt.time().minute(), dt.time().second(), dt.time().nanosecond()),
        (14, 32, 16, 0)
    );
    assert_ne!(naive, Value::from(date));
}

#[test]
fn dates_and_times_are_checked() {
    assert!(Date::from_ymd_opt(2023, 2, 29).is_none());
    assert!(Date::from_ymd_opt(2024, 2, 29).is_some());
    assert!(Date::from_ymd_opt(1900, 2, 29).is_none());
    assert!(Date::from_ymd_opt(2000, 2, 29).is_some());
    assert!(Date::from_ymd_opt(2023, 13, 1).is_none());
    assert!(Date::from_ymd_opt(262143, 1, 1).is_none());
    assert!(Date::from_ymd_opt(262142, 12, 31).is_some());
    assert!(Time::from_hms_nano_opt(23, 59, 59, 1_500_000_000).is_some());
    assert!(Time::from_hms_nano_opt(23, 59, 58, 1_500_000_000).is_none());
    assert!(Time::from_hms_opt(24, 0, 0).is_none());
}

#[test]
fn struct_order_does_not_matter() {
    let a = sample_struct(&[0, 1, 2, 3, 4]);
    let b = sample_struct(&[4, 3, 2, 1, 0]);
    let c = sample_struct(&[2, 0, 4, 1, 3]);
    assert_eq!(a, b);
    assert_eq!(b, c);
    assert_eq!(a.hash_code(), b.hash_code());
    assert_eq!(a.hash_code(), c.hash_code());
    assert!(a.well_formed());
    assert!(Value::from(Decimal::new(1, 28)).well_formed());
    assert_ne!(a, sample_struct(&[0, 1, 2, 3]));
}

#[test]
fn struct_last_entry_wins() {
    let s = Value::struct_from_entries(vec![
        (Id::new("k"), Value::from(1i32)),
        (Id::new("k"), Value::from(2i32)),
    ]);
    let expected = Value::struct_from_entries(vec![(Id::new("k"), Value::from(2i32))]);
    assert_eq!(s, expected);
    assert_ne!(s, Value::struct_from_entries(vec![(Id::new("k"), Value::from(1i32))]));
    assert_eq!(Value::new_struct(), Value::struct_from_entries(vec![]));
    match &s {
        Value::Struct(fields) => {
            assert_eq!(fields.len(), 1);
            assert_eq!(fields.as_slice()[0].0, Id::new("k"));
            assert_eq!(fields.as_slice()[0].1, Value::from(2i32));
        }
        _ => panic!("not a struct"),
    }
}

#[test]
fn list_order_matters() {
    let a = Value::list_from_iter(vec![Value::from(1i32), Value::from(2i32), Value::from(3i32)]);
    let b = Value::list_from_iter(vec![Value::from(3i32), Value::from(2i32), Value::from(1i32)]);
    let a2 = Value::list_from_iter(vec![Value::from(1i32), Value::from(2i32), Value::from(3i32)]);
    assert_ne!(a, b);
    assert_eq!(a, a2);
    let same = Value::list_from_iter(vec![Value::from(7i32), Value::from(7i32)]);
    let swapped = Value::list_from_iter(vec![Value::from(7i32), Value::from(7i32)]);
    assert_eq!(same, swapped);
    assert_eq!(Value::new_list(), Value::list_from_iter(vec![]));
    assert_ne!(Value::new_list(), Value::new_struct());
}

#[test]
fn numeric_conversions() {
    assert_eq!(Value::from(u64::MAX), Value::Int(-1));
    assert_eq!(Value::from(u32::MAX), Value::Int(4294967295));
    assert_eq!(Value::from(-8i8), Value::Int(-8));
    assert_eq!(Value::from(1i128 << 64), Value::Int(0));
    assert_eq!(Value::from(u128::MAX), Value::Int(-1));
    assert_eq!(Value::from(String::from("a")), Value::from_str_slice("a"));
    assert_eq!(Value::from("a"), Value::from_str_slice("a"));
    assert_ne!(Value::from("a"), Value::from("b"));
    assert_eq!(Value::from(Blob::from_vec(vec![1])), Value::Binary(Blob::from_vec(vec![1])));
}

#[test]
fn blob_parses_from_base64_text() {
    let parsed: Blob = "Tm90IGEgc2VjcmV0".parse().unwrap();
    assert_eq!(parsed, Blob::from_vec(b"Not a secret".to_vec()));
    assert!("m:YWI=".parse::<Blob>().is_err());
}

#[test]
fn equal_values_hash_alike() {

    let a = Value::from(Decimal::new(15, 1));
    let b = Value::from(Decimal::new(150, 2));
    assert_eq!(a, b);
    assert_eq!(a.hash_code(), b.hash_code());
    assert_ne!(a.hash_code(), Value::from(Decimal::new(16, 1)).hash_code());
    let mut set = HashSet::new();
    set.insert(sample_struct(&[0, 1, 2, 3, 4]));
    assert!(set.contains(&sample_struct(&[3, 1, 4, 0, 2])));
    let nan = float(f64::NAN);
    assert_eq!(nan.hash_code(), float(f64::NAN).hash_code());
    assert_ne!(float(0.0).hash_code(), float(-0.0).hash_code());
    assert_eq!(Id::new("x").hash_code(), Id::new("x").hash_code());
    assert_ne!(Id::new("x").hash_code(), Id::with_metadata("x", "m").hash_code());
    assert_ne!(Blob::from_vec(vec![1]).hash_code(), Blob::from_vec(vec![2]).hash_code());
}

#[test]
fn base64_alphabet_and_padding() {
    assert_eq!(Blob::from_vec(vec![0xFF]).encode_base64(), "/w==");
    assert_eq!(Blob::from_vec(vec![0xFB, 0xEF]).encode_base64(), "++8=");
    assert!(Blob::decode_base64(b"Tm90IGEgc2VjcmV0\n").is_err());
    assert!(Blob::decode_base64(b"/w").is_err());
    assert!(Blob::decode_base64(b"/x==").is_err());
    assert!(Blob::decode_base64(b"m:Tm90IGEgc2VjcmV0").is_err());
    let text = Blob::from_vec((0..=255u8).collect()).encode_base64();
    assert!(text.bytes().all(|c| c.is_ascii_alphanumeric() || c == b'+' || c == b'/' || c == b'='));
}
