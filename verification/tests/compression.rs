use raptor::{Compression, Error};

const SCHEMES: [Compression; 4] = [
    Compression::Bz2,
    Compression::Gz,
    Compression::Xz,
    Compression::Zst,
];

fn sample() -> Vec<u8> {
    let mut data = Vec::new();
    for i in 0..5000u32 {
        data.extend_from_slice(format!("line {} of the sample\n", i % 97).as_bytes());
    }
    data
}

#[test]
fn decompress_undoes_compress() {
    for scheme in SCHEMES.iter() {
        for data in [Vec::new(), vec![0u8], b"hello".to_vec(), sample()] {
            let packed = scheme.compress(&data).unwrap();
            let unpacked = scheme.decompress(&packed).unwrap();
            assert_eq!(unpacked, data, "{:?}", scheme);
        }
    }
}

#[test]
fn every_byte_value_survives() {
    let data: Vec<u8> = (0..=255u8).cycle().take(3000).collect();
    for scheme in SCHEMES.iter() {
        let packed = scheme.compress(&data).unwrap();
        assert_eq!(scheme.decompress(&packed).unwrap(), data);
    }
}

#[test]
fn compressed_streams_have_their_magic() {
    let data = sample();
    let gz = Compression::Gz.compress(&data).unwrap();
    assert_eq!(&gz[..2], &[0x1f, 0x8b]);
    let bz2 = Compression::Bz2.compress(&data).unwrap();
    assert_eq!(&bz2[..3], b"BZh");
    let xz = Compression::Xz.compress(&data).unwrap();
    assert_eq!(&xz[..6], &[0xfd, b'7', b'z', b'X', b'Z', 0x00]);
    let zst = Compression::Zst.compress(&data).unwrap();
    assert_eq!(&zst[..4], &[0x28, 0xb5, 0x2f, 0xfd]);
    for packed in [&gz, &bz2, &xz, &zst] {
        assert!(packed.len() < data.len());
    }
}

#[test]
fn garbage_does_not_decompress() {
    let garbage = b"this is no compressed stream at all".to_vec();
    assert!(matches!(Compression::Gz.decompress(&garbage), Err(Error::Io(_))));
    assert!(matches!(Compression::Bz2.decompress(&garbage), Err(Error::Io(_))));
    assert!(matches!(Compression::Zst.decompress(&garbage), Err(Error::Io(_))));
    assert!(matches!(
        Compression::Xz.decompress(&garbage),
        Err(Error::Io(_)) | Err(Error::Compression(_))
    ));
}

#[test]
fn truncated_stream_fails() {
    let data = sample();
    for scheme in [Compression::Bz2, Compression::Gz, Compression::Xz, Compression::Zst] {
        let packed = scheme.compress(&data).unwrap();
        let cut = &packed[..packed.len() / 2];
        match scheme.decompress(cut) {
            Ok(out) => assert_ne!(out, data, "{:?}", scheme),
            Err(Error::Io(_)) | Err(Error::Compression(_)) => {}
            Err(other) => panic!("{:?}", other),
        }
    }
}

#[test]
fn scheme_is_detected_from_the_suffix() {
    assert_eq!(Compression::from_str("control.tar.gz").unwrap(), Compression::Gz);
    assert_eq!(Compression::from_str("data.tar.bz2").unwrap(), Compression::Bz2);
    assert_eq!(Compression::from_str("data.tar.xz").unwrap(), Compression::Xz);
    assert_eq!(Compression::from_str("data.tar.zst").unwrap(), Compression::Zst);
    assert_eq!(Compression::from_str("zstd").unwrap(), Compression::Zst);
    assert_eq!(Compression::from_str("xz").unwrap(), Compression::Xz);
    assert_eq!(Compression::from_str("gz").unwrap(), Compression::Gz);
    assert_eq!(Compression::from_str("bz2").unwrap(), Compression::Bz2);
}

#[test]
fn detection_trims_and_ignores_case() {
    assert_eq!(Compression::from_str("  DATA.TAR.GZ \n").unwrap(), Compression::Gz);
    assert_eq!(Compression::from_str("Control.Tar.XZ").unwrap(), Compression::Xz);
    assert_eq!(Compression::from_str("\tZsT").unwrap(), Compression::Zst);
}

#[test]
fn unknown_suffix_is_rejected() {
    match Compression::from_str(" Data.Tar.LZ4 ") {
        Err(Error::InvalidCompression(name)) => assert_eq!(name, "data.tar.lz4"),
        other => panic!("{:?}", other),
    }
    assert!(matches!(Compression::from_str(""), Err(Error::InvalidCompression(_))));
    assert!(matches!(Compression::from_str("gzip"), Err(Error::InvalidCompression(_))));
    assert!(matches!(Compression::from_str("z"), Err(Error::InvalidCompression(_))));
    assert!(matches!(Compression::from_str("gz."), Err(Error::InvalidCompression(_))));
}

#[test]
fn a_bare_tar_stands_for_no_scheme() {
    for name in ["data.tar", "control.tar", "tar", " Data.TAR ", "lzma", "data.tar.lzma"] {
        match Compression::from_str(name) {
            Err(Error::InvalidCompression(tested)) => {
                assert_eq!(tested, name.trim().to_lowercase())
            }
            other => panic!("{:?}", other),
        }
    }
}

#[test]
fn packing_is_a_function_of_the_data() {
    let data = sample();
    for scheme in SCHEMES.iter() {
        assert_eq!(scheme.compress(&data).unwrap(), scheme.compress(&data).unwrap());
        assert!(scheme.compress(&[]).is_ok());
    }
}

#[test]
fn detect_takes_the_name_as_it_is() {
    assert_eq!(Compression::detect("a.gz"), Some(Compression::Gz));
    assert_eq!(Compression::detect("a.GZ"), None);
    assert_eq!(Compression::detect("a.gz "), None);
    assert_eq!(Compression::detect("tar"), None);
    assert_eq!(Compression::detect("data.tar"), None);
    assert_eq!(Compression::detect("ta"), None);
}

#[test]
fn suffixes() {
    assert_eq!(Compression::Bz2.to_string(), "bz2");
    assert_eq!(Compression::Gz.to_string(), "gz");
    assert_eq!(Compression::Xz.to_string(), "xz");
    assert_eq!(Compression::Zst.to_string(), "zst");
}

#[test]
fn member_names() {
    assert_eq!(Compression::Gz.member_name("control"), "control.tar.gz");
    assert_eq!(Compression::Zst.member_name("data"), "data.tar.zst");
    assert_eq!(Compression::Bz2.member_name("data"), "data.tar.bz2");
    assert_eq!(Compression::Xz.member_name("control"), "control.tar.xz");
}

#[test]
fn member_names_are_detected_as_their_scheme() {
    for scheme in SCHEMES.iter() {
        for role in ["control", "data", ""] {
            let name = scheme.member_name(role);
            assert_eq!(Compression::from_str(&name).unwrap(), *scheme);
        }
    }
}

#[test]
fn ascii_names_are_put_in_lower_case_character_by_character() {
    let all: String = (0x21u8..0x7f).map(|b| b as char).collect();
    match Compression::from_str(&all) {
        Err(Error::InvalidCompression(name)) => {
            assert_eq!(name, all.to_ascii_lowercase());
            assert_eq!(name, all.to_lowercase());
        }
        other => panic!("{:?}", other),
    }
}
