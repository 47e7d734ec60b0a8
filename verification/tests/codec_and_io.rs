use zist::format::Format;
use zist::io::{decode, decode_stream, detect_format, encode, settle_decode, CappedWriter, Error, Options};

const PAYLOAD: &[u8] = b"the quick brown fox jumps over the lazy dog\n\
    the rain in spain falls mainly on the plain\n\
    pack my box with five dozen liquor jugs\n";

fn roundtrip_bytes(fmt: Format) {
    let compressed = encode(PAYLOAD, fmt, None).unwrap();
    assert_eq!(Format::detect(&compressed[..compressed.len().min(6)]), Some(fmt));
    let plain = decode(&compressed, fmt, None).unwrap();
    assert_eq!(plain, PAYLOAD);
}

#[test]
fn encode_decode_roundtrip_zstd() {
    roundtrip_bytes(Format::Zstd);
}

#[test]
fn encode_decode_roundtrip_gzip() {
    roundtrip_bytes(Format::Gzip);
}

#[test]
fn encode_decode_roundtrip_xz() {
    roundtrip_bytes(Format::Xz);
}

#[test]
fn encode_decode_roundtrip_bzip2() {
    roundtrip_bytes(Format::Bzip2);
}

#[test]
fn encode_empty_input_roundtrips() {
    for fmt in [Format::Zstd, Format::Gzip, Format::Xz, Format::Bzip2] {
        let c = encode(b"", fmt, None).unwrap();
        assert!(!c.is_empty());
        assert_eq!(decode(&c, fmt, None).unwrap(), Vec::<u8>::new());
    }
}

#[test]
fn zstd_output_starts_with_magic() {
    let c = encode(PAYLOAD, Format::Zstd, None).unwrap();
    assert_eq!(&c[..4], &[0x28, 0xB5, 0x2F, 0xFD]);
}

#[test]
fn levels_out_of_range_are_clamped() {
    for fmt in [Format::Gzip, Format::Xz, Format::Bzip2] {
        for level in [i32::MIN, -1, 0, 1, 9, 10, 42, i32::MAX] {
            let c = encode(PAYLOAD, fmt, Some(level)).unwrap();
            assert_eq!(decode(&c, fmt, None).unwrap(), PAYLOAD);
        }
    }
}

#[test]
fn zstd_level_one_and_nineteen() {
    for level in [1, 19] {
        let c = encode(PAYLOAD, Format::Zstd, Some(level)).unwrap();
        assert_eq!(decode(&c, Format::Zstd, None).unwrap(), PAYLOAD);
    }
}

#[test]
fn formats_without_codec_are_unsupported() {
    match encode(PAYLOAD, Format::Lz4, None) {
        Err(Error::UnsupportedFormat(Format::Lz4)) => {}
        other => panic!("expected UnsupportedFormat, got {other:?}"),
    }
    match decode(PAYLOAD, Format::Lzip, None) {
        Err(Error::UnsupportedFormat(Format::Lzip)) => {}
        other => panic!("expected UnsupportedFormat, got {other:?}"),
    }
}

#[test]
fn decode_caps_output() {
    let c = encode(PAYLOAD, Format::Zstd, None).unwrap();
    match decode(&c, Format::Zstd, Some(10)) {
        Err(Error::MaxSizeExceeded(10)) => {}
        other => panic!("expected MaxSizeExceeded(10), got {other:?}"),
    }
    assert_eq!(decode(&c, Format::Zstd, Some(64 * 1024)).unwrap(), PAYLOAD);
}

#[test]
fn decode_cap_equal_to_output_length_passes() {
    let n = PAYLOAD.len() as u64;
    for fmt in [Format::Zstd, Format::Gzip, Format::Xz, Format::Bzip2] {
        let c = encode(PAYLOAD, fmt, None).unwrap();
        assert_eq!(decode(&c, fmt, Some(n)).unwrap(), PAYLOAD);
        match decode(&c, fmt, Some(n - 1)) {
            Err(Error::MaxSizeExceeded(m)) => assert_eq!(m, n - 1),
            other => panic!("expected MaxSizeExceeded, got {other:?}"),
        }
        match decode(&c, fmt, Some(0)) {
            Err(Error::MaxSizeExceeded(0)) => {}
            other => panic!("expected MaxSizeExceeded(0), got {other:?}"),
        }
        assert_eq!(decode(&c, fmt, Some(u64::MAX)).unwrap(), PAYLOAD);
    }
}

#[test]
fn decode_rejects_corruption() {
    let mut c = encode(PAYLOAD, Format::Gzip, None).unwrap();
    let i = 12.min(c.len() - 1);
    c[i] ^= 0xFF;
    match decode(&c, Format::Gzip, None) {
        Err(Error::Io(_)) => {}
        other => panic!("expected an I/O error, got {other:?}"),
    }
}

#[test]
fn decode_rejects_truncation() {
    for fmt in [Format::Zstd, Format::Gzip, Format::Xz, Format::Bzip2] {
        let c = encode(PAYLOAD, fmt, None).unwrap();
        let cut = &c[..c.len() / 2];
        assert!(decode(cut, fmt, None).is_err(), "truncated {fmt:?} stream must fail");
    }
}

#[test]
fn decode_wrong_format_fails() {
    let c = encode(PAYLOAD, Format::Gzip, None).unwrap();
    assert!(decode(&c, Format::Xz, None).is_err());
}

#[test]
fn detect_format_errors_on_unknown() {
    match detect_format(b"not a compressed file at all, nope") {
        Err(Error::UnknownFormat) => {}
        other => panic!("expected UnknownFormat, got {other:?}"),
    }
    assert!(matches!(detect_format(&[0x1F, 0x8B, 0x08, 0, 0, 0]), Ok(Format::Gzip)));
}

#[test]
fn capped_writer_trips_past_budget() {
    let mut w = CappedWriter::new(Vec::new(), 5);
    assert_eq!(w.write(b"abc"), Ok(3));
    assert!(!w.tripped());
    assert_eq!(w.write(b"de"), Ok(2));
    assert!(w.write(b"f").is_err());
    assert!(w.tripped());
    assert_eq!(w.into_inner(), b"abcde".to_vec());
}

#[test]
fn settle_decode_cases() {
    let (w, e) = settle_decode(b"hello".to_vec(), None, None);
    assert_eq!(w, b"hello".to_vec());
    assert!(e.is_none());
    let (w, e) = settle_decode(b"hello".to_vec(), None, Some(5));
    assert_eq!(w, b"hello".to_vec());
    assert!(e.is_none());
    let (w, e) = settle_decode(b"hello!".to_vec(), None, Some(5));
    assert_eq!(w, b"hello".to_vec());
    assert!(matches!(e, Some(Error::MaxSizeExceeded(5))));
    let (w, e) = settle_decode(b"hel".to_vec(), Some("bad".to_string()), Some(5));
    assert_eq!(w, b"hel".to_vec());
    match e {
        Some(Error::Io(m)) => assert_eq!(m, "bad"),
        other => panic!("expected Io, got {other:?}"),
    }
    let (w, e) = settle_decode(b"hello!".to_vec(), Some("bad".to_string()), Some(5));
    assert_eq!(w, b"hello".to_vec());
    assert!(matches!(e, Some(Error::MaxSizeExceeded(5))));
}

#[test]
fn decode_stream_under_a_cap() {
    let c = encode(PAYLOAD, Format::Xz, None).unwrap();
    let (w, e) = decode_stream(&c, Format::Xz, Some(7));
    assert_eq!(w, &PAYLOAD[..7]);
    assert!(matches!(e, Some(Error::MaxSizeExceeded(7))));
    let (w, e) = decode_stream(&c, Format::Xz, None);
    assert_eq!(w, PAYLOAD);
    assert!(e.is_none());
    let (w, e) = decode_stream(&c, Format::Lz4, None);
    assert!(w.is_empty());
    assert!(matches!(e, Some(Error::UnsupportedFormat(Format::Lz4))));
}

#[test]
fn options_default_is_all_off() {
    let o = Options::default();
    assert!(!o.keep && !o.force && o.max_decompressed.is_none());
}

#[test]
fn bzip2_levels_show_in_block_size() {
    assert_eq!(encode(PAYLOAD, Format::Bzip2, None).unwrap()[3], b'6');
    assert_eq!(encode(PAYLOAD, Format::Bzip2, Some(1)).unwrap()[3], b'1');
    assert_eq!(encode(PAYLOAD, Format::Bzip2, Some(-5)).unwrap()[3], b'1');
    assert_eq!(encode(PAYLOAD, Format::Bzip2, Some(42)).unwrap()[3], b'9');
    assert_eq!(encode(PAYLOAD, Format::Bzip2, Some(4)).unwrap()[3], b'4');
}

#[test]
fn gzip_levels_show_in_header() {
    // The gzip header's XFL byte: 2 for the best level, 4 for the fastest.
    assert_eq!(encode(PAYLOAD, Format::Gzip, Some(42)).unwrap()[8], 2);
    assert_eq!(encode(PAYLOAD, Format::Gzip, Some(-7)).unwrap()[8], 4);
    assert_eq!(encode(PAYLOAD, Format::Gzip, None).unwrap()[8], 0);
}

#[test]
fn xz_header_and_roundtrip_at_clamped_levels() {
    let c = encode(PAYLOAD, Format::Xz, Some(100)).unwrap();
    assert_eq!(&c[..6], &[0xFD, 0x37, 0x7A, 0x58, 0x5A, 0x00]);
    assert_eq!(decode(&c, Format::Xz, Some(PAYLOAD.len() as u64)).unwrap(), PAYLOAD);
}

#[test]
fn decode_of_plain_bytes_fails_for_every_codec() {
    for fmt in [Format::Zstd, Format::Gzip, Format::Xz, Format::Bzip2] {
        assert!(decode(PAYLOAD, fmt, None).is_err());
        assert!(decode(PAYLOAD, fmt, Some(1_000_000)).is_err());
    }
}

#[test]
fn error_messages() {
    assert_eq!(Error::Io("boom".to_string()).message(), b"io: boom".to_vec());
    assert_eq!(
        Error::OutputExists(b"dir/a.txt.zst".to_vec()).message(),
        b"refusing to clobber: dir/a.txt.zst".to_vec()
    );
    assert_eq!(Error::UnknownFormat.message(), b"could not identify compression format".to_vec());
    assert_eq!(
        Error::UnsupportedFormat(Format::Lz4).message(),
        b"no decompressor compiled in for lz4".to_vec()
    );
    assert_eq!(
        Error::MaxSizeExceeded(1024).message(),
        b"decompressed output exceeded --max-size (1024 bytes)".to_vec()
    );
    assert_eq!(
        Error::MaxSizeExceeded(0).message(),
        b"decompressed output exceeded --max-size (0 bytes)".to_vec()
    );
    assert_eq!(
        Error::MaxSizeExceeded(u64::MAX).message(),
        b"decompressed output exceeded --max-size (18446744073709551615 bytes)".to_vec()
    );
    assert_eq!(Error::Io("é".to_string()).message(), "io: é".as_bytes().to_vec());
}

#[test]
fn encode_owes_success_for_every_codec() {
    for fmt in [Format::Zstd, Format::Gzip, Format::Xz, Format::Bzip2] {
        for level in [None, Some(-5), Some(0), Some(1), Some(9), Some(42)] {
            let out = encode(PAYLOAD, fmt, level).expect("encoding succeeds");
            assert_ne!(out, PAYLOAD);
            assert_eq!(decode(&out, fmt, None).unwrap(), PAYLOAD);
        }
    }
    assert!(matches!(encode(PAYLOAD, Format::Lzip, None), Err(Error::UnsupportedFormat(Format::Lzip))));
}

#[test]
fn levels_are_clamped_to_identical_bytes() {
    for l in [-3, 10, 42, i32::MAX] {
        let c = l.clamp(0, 9);
        assert_eq!(encode(PAYLOAD, Format::Gzip, Some(l)).unwrap(), encode(PAYLOAD, Format::Gzip, Some(c)).unwrap());
        assert_eq!(encode(PAYLOAD, Format::Xz, Some(l)).unwrap(), encode(PAYLOAD, Format::Xz, Some(c)).unwrap());
        let b = l.clamp(1, 9);
        assert_eq!(encode(PAYLOAD, Format::Bzip2, Some(l)).unwrap(), encode(PAYLOAD, Format::Bzip2, Some(b)).unwrap());
    }
    assert_eq!(encode(PAYLOAD, Format::Bzip2, Some(0)).unwrap(), encode(PAYLOAD, Format::Bzip2, Some(1)).unwrap());
    assert_eq!(encode(PAYLOAD, Format::Zstd, None).unwrap(), encode(PAYLOAD, Format::Zstd, Some(3)).unwrap());
    assert_eq!(encode(PAYLOAD, Format::Gzip, None).unwrap(), encode(PAYLOAD, Format::Gzip, Some(6)).unwrap());
    assert_eq!(encode(PAYLOAD, Format::Xz, None).unwrap(), encode(PAYLOAD, Format::Xz, Some(6)).unwrap());
    assert_eq!(encode(PAYLOAD, Format::Bzip2, None).unwrap(), encode(PAYLOAD, Format::Bzip2, Some(6)).unwrap());
}

#[test]
fn fitting_cap_changes_nothing() {
    for fmt in [Format::Zstd, Format::Gzip, Format::Xz, Format::Bzip2] {
        let c = encode(PAYLOAD, fmt, None).unwrap();
        let exact = PAYLOAD.len() as u64;
        assert_eq!(decode(&c, fmt, Some(exact)).unwrap(), decode(&c, fmt, None).unwrap());
        assert_eq!(decode(&c, fmt, Some(u64::MAX)).unwrap(), PAYLOAD);
        assert!(matches!(decode(&c, fmt, Some(exact - 1)), Err(Error::MaxSizeExceeded(m)) if m == exact - 1));
    }
}

#[test]
fn capped_writer_totals_over_many_writes() {
    let mut w = CappedWriter::new(b"ab".to_vec(), 5);
    assert!(w.write(b"cd").is_ok());
    assert!(w.write(b"efgh").is_err());
    assert!(w.tripped());
    assert!(w.write(b"e").is_ok());
    assert!(w.tripped());
    assert!(w.write(b"fg").is_ok());
    assert!(w.write(b"h").is_err());
    assert_eq!(w.into_inner(), b"abcdefg".to_vec());
}
