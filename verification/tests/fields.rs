use nanoft8::bits::{num_words, Bitset};
use nanoft8::protocol::message::chars::Chars;
use nanoft8::protocol::message::freetext::F71;
use nanoft8::protocol::message::grid15::G15;
use nanoft8::protocol::message::roger2::R2;
use nanoft8::util::{append, trim_u8str, write_at, write_slice};

#[test]
fn test_freetext() {
    let testcases: &[(&[u8; 13], [u32; 3])] = &[
        (b"             ", [0, 0, 0]),
        (b"            0", [0, 0x0, 0x02000000]),
        (b"0000000000000", [0x358a849, 0x93e71807, 0xce000000]),
        (b"ZZZZZZZZZZZZZ", [0x7877aa58, 0xcc7f6118, 0xf8000000]),
        (b"?????????????", [0x8932F3C8, 0xB002D93F, 0xFE000000]),
    ];
    for (expected, bits) in testcases {
        let mut str = [b' '; 13];
        F71(Bitset::<77, 3>::from_words(*bits)).write_str(&mut str).unwrap();
        assert_eq!(&str, *expected);

        let f = F71::from_string(&str).unwrap();
        assert_eq!(f.0.words(), *bits);
    }
}

#[test]
fn number_below_the_range_of_texts_comes_back() {
    let top: u128 = 1265437718438866624512;
    let mut v: u128 = 1;
    let mut values = vec![0u128, 41, 42, top - 1, top / 2, 0x1234_5678_9abc_def0];
    while v < top {
        values.push(v);
        values.push(v * 41 / 42);
        v *= 42;
    }
    for v in values {
        let w = v << 25;
        let words = [(w >> 64) as u32, (w >> 32) as u32, w as u32];
        let mut text = [0u8; 13];
        assert_eq!(F71(Bitset::<77, 3>::from_words(words)).write_str(&mut text), Some(13));
        assert_eq!(F71::from_string(&text).unwrap().0.words(), words);
    }
    let w = top << 25;
    let words = [(w >> 64) as u32, (w >> 32) as u32, w as u32];
    let mut text = [0u8; 13];
    assert_eq!(F71(Bitset::<77, 3>::from_words(words)).write_str(&mut text), Some(13));
    assert_eq!(&text, b"             ");
    assert_eq!(F71::from_string(&text).unwrap().0.words(), [0, 0, 0]);
}

#[test]
fn grid15() {
    let mut buf = [0; 4];

    let testcases: &[(&[u8], G15)] = &[
        (b"JO22", G15::from_grid_string(b"JO22")),
        (b"-30", G15::from_report(-30)),
        (b"+00", G15::from_report(0)),
        (b"+99", G15::from_report(99)),
        (b"RRR", G15::rrr()),
        (b"RR73", G15::rr73()),
        (b"73", G15::v73()),
    ];

    for (str, g) in testcases {
        let n = g.write_str(&mut buf).unwrap();
        let buf = &buf[..n];
        assert_eq!(String::from_utf8_lossy(buf), String::from_utf8_lossy(str));
    }
}

#[test]
fn grid_values_and_edges() {
    assert_eq!(G15::from_grid_string(b"AA00").0, 0);
    assert_eq!(G15::from_grid_string(b"RR99").0, 32399);
    assert_eq!(G15::from_grid_string(b"PM95").0, ((15 * 18 + 12) * 10 + 9) * 10 + 5);
    assert_eq!(G15::from_report(-30).0, 32405);
    assert_eq!(G15::from_report(99).0, 32534);
    let mut buf = [0u8; 8];
    assert_eq!(G15(32400).write_str(&mut buf), Some(0));
    let n = G15::from_report(-7).write_str(&mut buf).unwrap();
    assert_eq!(&buf[..n], b"-07");
    let n = G15(32400 + 35 + 120).write_str(&mut buf).unwrap();
    assert_eq!(&buf[..n], b"+120");
    let n = G15::from_grid_string(b"RR99").write_str(&mut buf).unwrap();
    assert_eq!(&buf[..n], b"RR99");
    let mut short = [0u8; 2];
    assert_eq!(G15::from_grid_string(b"JO22").write_str(&mut short), None);
    assert_eq!(G15::from_report(5).write_str(&mut short), None);
    assert_eq!(G15::v73().write_str(&mut short), Some(2));
}

#[test]
fn every_report_is_rendered_with_its_sign() {
    let mut buf = [0u8; 3];
    for r in -30i16..=99 {
        let n = G15::from_report(r).write_str(&mut buf).unwrap();
        assert_eq!(String::from_utf8_lossy(&buf[..n]), format!("{:+03}", r));
    }
}

#[test]
fn roger_values() {
    for v in 0..4u8 {
        assert_eq!(R2::from_val(v).to_val(), v);
    }
    assert_eq!(R2::from_val(0), R2::BLANK);
    assert_eq!(R2::from_val(3), R2::V73);
    let mut buf = [0u8; 4];
    let n = R2::BLANK.write_str(&mut buf).unwrap();
    assert_eq!(&buf[..n], b" ");
    let n = R2::RRR.write_str(&mut buf).unwrap();
    assert_eq!(&buf[..n], b"RRR");
    let n = R2::RR73.write_str(&mut buf).unwrap();
    assert_eq!(&buf[..n], b"RR73");
    let n = R2::V73.write_str(&mut buf).unwrap();
    assert_eq!(&buf[..n], b"73");
    let mut short = [0u8; 2];
    assert_eq!(R2::RRR.write_str(&mut short), None);
}

#[test]
fn freetext_edges() {
    assert!(F71::from_string(b"ABC,").is_none());
    let f = F71::from_string(b"CQ DX").unwrap();
    let mut out = [0u8; 13];
    assert_eq!(f.write_str(&mut out), Some(13));
    assert_eq!(&out, b"        CQ DX");
    let f = F71::from_string(b"tnx 73 gl").unwrap();
    f.write_str(&mut out).unwrap();
    assert_eq!(&out, b"    TNX 73 GL");
    let mut short = [0u8; 12];
    assert_eq!(f.write_str(&mut short), None);
    let f = F71::from_string(b"+-./? 0189AZ ").unwrap();
    f.write_str(&mut out).unwrap();
    assert_eq!(&out, b"+-./? 0189AZ ");
}

#[test]
fn alphabets() {
    let all = [
        Chars::AlnumSpc,
        Chars::Alnum,
        Chars::Numeric,
        Chars::AlphaSpc,
        Chars::AlnumSs,
        Chars::Full,
    ];
    let sizes = [37usize, 36, 10, 27, 38, 42];
    for (cs, size) in all.iter().zip(sizes.iter()) {
        assert_eq!(cs.size(), *size);
        assert_eq!(cs.get_str().len(), *size);
        for i in 0..*size {
            let c = cs.get(i as u8);
            assert_eq!(cs.get_str()[i], c);
            assert_eq!(cs.find(c), Some(i as u8));
        }
    }
    assert_eq!(Chars::Full.get_str(), b" 0123456789ABCDEFGHIJKLMNOPQRSTUVWXYZ+-./?");
    assert_eq!(Chars::AlnumSs.get_str(), b" 0123456789ABCDEFGHIJKLMNOPQRSTUVWXYZ/");
    assert_eq!(Chars::Alnum.find(b'z'), Some(35));
    assert_eq!(Chars::Alnum.find(b' '), None);
    assert_eq!(Chars::Numeric.find(b'A'), None);
    assert_eq!(Chars::AlphaSpc.find(b'b'), Some(2));
    assert_eq!(Chars::Full.find(b'?'), Some(41));
    assert_eq!(Chars::Full.find(b','), None);
    let mut buf = [0u8; 20];
    let pos = Chars::Numeric.render(1234567890123, &mut buf);
    assert_eq!(&buf[pos..], b"1234567890123");
    let pos = Chars::AlnumSs.render(0, &mut buf);
    assert_eq!(pos, 20);
    let pos = Chars::Numeric.render(u64::MAX, &mut buf);
    assert_eq!(&buf[pos..], b"18446744073709551615");
}

#[test]
fn trimming_and_copying() {
    assert_eq!(trim_u8str(b"  AB C  "), b"AB C");
    assert_eq!(trim_u8str(b"    "), b"");
    assert_eq!(trim_u8str(b""), b"");
    assert_eq!(trim_u8str(b"X"), b"X");
    let mut out = [b'.'; 6];
    assert_eq!(write_slice(&mut out, b"ABC"), Some(3));
    assert_eq!(&out, b"ABC...");
    assert_eq!(write_slice(&mut out, b"ABCDEFG"), None);
    assert_eq!(&out, b"ABC...");
    assert_eq!(write_at(&mut out, 4, b"XY"), Some(6));
    assert_eq!(&out, b"ABC.XY");
    assert_eq!(write_at(&mut out, 5, b"XY"), None);
    assert_eq!(append(&mut out, 1, b"--"), 3);
    assert_eq!(&out, b"A--.XY");
    assert_eq!(write_slice(&mut out, b""), Some(0));
}

#[test]
fn bit_fields() {
    assert_eq!(num_words::<77>(), 3);
    assert_eq!(num_words::<64>(), 2);
    assert_eq!(num_words::<174>(), 6);
    let mut b = Bitset::<77, 3>::new();
    assert_eq!(b.words(), [0, 0, 0]);
    b.set(0, true);
    assert!(b.get(0));
    assert_eq!(b.words(), [0x8000_0000, 0, 0]);
    b.set(0, false);
    b.set_slice(28, 8, 0xa5);
    assert_eq!(b.words(), [0x0000_000a, 0x5000_0000, 0]);
    assert_eq!(b.slice(28, 8), 0xa5);
    assert_eq!(b.slice(30, 4), 0x9);
    assert_eq!(b.slice_u64(0, 64), 0x0000_000a_5000_0000);
    b.set_slice(45, 32, 0xdead_beef);
    assert_eq!(b.slice(45, 32), 0xdead_beef);
    assert_eq!(b.slice_u64(13, 64), (0xa5u64 << 41) | 0xdead_beef);
    assert_eq!(b.slice(28, 8), 0xa5);
    b.set_slice(74, 3, 0xff);
    assert_eq!(b.slice(74, 3), 7);
    assert_eq!(b.words()[2] & 0x0007_ffff, 0);
    b.set_slice(0, 32, 0x1234_5678);
    assert_eq!(b.words()[0], 0x1234_5678);
    for i in 0..77 {
        assert_eq!(b.get(i), b.slice(i, 1) == 1);
    }
}

#[test]
fn bit_vectors_change_size() {
    let b = Bitset::<77, 3>::from_words([0xffff_ffff, 0xffff_ffff, 0xffff_ffff]);
    assert_eq!(b.words(), [0xffff_ffff, 0xffff_ffff, 0xfff8_0000]);
    let wide = b.with_size::<91, 3>();
    assert_eq!(wide.words(), [0xffff_ffff, 0xffff_ffff, 0xfff8_0000]);
    let narrow = wide.with_size::<40, 2>();
    assert_eq!(narrow.words(), [0xffff_ffff, 0xff00_0000]);
    let even = wide.with_size::<64, 2>();
    assert_eq!(even.words(), [0xffff_ffff, 0xffff_ffff]);
    let long = narrow.with_size::<174, 6>();
    assert_eq!(long.words(), [0xffff_ffff, 0xff00_0000, 0, 0, 0, 0]);
}
