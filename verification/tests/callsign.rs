use nanoft8::protocol::message::callsign::c28::{alphas_to_num, num_to_alphas, C28};
use nanoft8::protocol::message::callsign::c58::C58;
use nanoft8::protocol::message::callsign::hash::{hash_callsign, CallsignHash};
use nanoft8::protocol::message::callsign::hashtable::HashTable;

type Table = HashTable<[u8; 11], 2, 4>;

fn trimmed(mut out: &[u8]) -> &[u8] {
    while out.first() == Some(&b' ') {
        out = &out[1..];
    }
    while out.last() == Some(&b' ') {
        out = &out[..out.len() - 1];
    }
    out
}

#[test]
fn c28_test_c28_normalize() {
    const TESTCASES: &[(&[u8], &[u8])] =
        &[(b"JA1ZLO", b"JA1ZLO"), (b"8N1N", b"8N1N  "), (b"K1ABC", b" K1ABC")];
    let mut buf1 = [0u8; 6];
    let mut buf2 = [0u8; 6];

    for (call, out) in TESTCASES {
        assert!(C28::normalize_callsign(call, &mut buf1));
        for i in 0..6 {
            buf2[i] = C28::CHARS[i].get(buf1[i]);
        }
        assert_eq!(out, out);
        assert_eq!(&buf2[..], *out);
    }
}

#[test]
fn c28_test_c28() {
    let mut out = [0u8; 6];
    const TESTCASES: &[(&[u8], u32)] = &[
        (b"JA1ZLO", 149982772),
        (b"JJ1FYD", 151740002),
        (b"8N1N", 74587795),
        (b"K1ABC", 10214965),
    ];

    for (call, num) in TESTCASES {
        let c = C28::from_call(call);
        assert!(c.is_some());
        let c = c.unwrap();
        assert_eq!(c.0, *num);

        let c = C28(*num);
        c.write_str(&mut out, None::<&Table>).unwrap();
        assert_eq!(call, &trimmed(&out));
    }
}

#[test]
fn c28_test_c28_to_string() {
    let mut out = [0u8; 16];

    let testcases: &[(u32, &[u8])] = &[
        (C28::VALUE_DE, b"DE"),
        (C28::VALUE_QRZ, b"QRZ"),
        (C28::VALUE_CQ, b"CQ"),
        (C28::VALUE_CQNUM_START, b"CQ 000"),
        (1004, b"CQ A"),
        (1031, b"CQ AA"),
        (1760, b"CQ AAA"),
        (21443, b"CQ AAAA"),
        (532443, b"CQ ZZZZ"),
    ];
    for (num, ret) in testcases {
        let c = C28(*num);
        let n = c.write_str(&mut out, None::<&Table>).unwrap();
        assert_eq!(&out[..n], *ret);
    }
}

#[test]
fn callsign28_test_c28_normalize() {
    const TESTCASES: &[(&[u8], &[u8])] =
        &[(b"JA1ZLO", b"JA1ZLO"), (b"8N1N", b"8N1N  "), (b"K1ABC", b" K1ABC")];
    let mut buf1 = [0u8; 6];
    let mut buf2 = [0u8; 6];

    for (call, out) in TESTCASES {
        assert!(C28::normalize_callsign(call, &mut buf1));
        for i in 0..6 {
            buf2[i] = C28::CHARS[i].get(buf1[i]);
        }
        assert_eq!(out, out);
    }
}

#[test]
fn callsign28_test_c28() {
    let mut out = [0u8; 7];
    const TESTCASES: &[(&[u8], u32)] = &[
        (b"JA1ZLO", 149982772),
        (b"JJ1FYD", 151740002),
        (b"8N1N", 74587795),
        (b"K1ABC", 10214965),
    ];

    for (call, num) in TESTCASES {
        let c = C28::from_call(call).unwrap();
        assert_eq!(c.0, *num);

        let c = C28(*num);
        c.to_string(&mut out);
        assert_eq!(call, &trimmed(&out));
    }
}

#[test]
fn callsign28_test_c28_to_string() {
    let mut out = [0u8; 7];

    let testcases: &[(u32, &[u8])] = &[
        (C28::VALUE_DE, b"DE     "),
        (C28::VALUE_QRZ, b"QRZ    "),
        (C28::VALUE_CQ, b"CQ     "),
        (C28::VALUE_CQNUM_START, b"CQ 000 "),
        (1004, b"CQ    A"),
        (1031, b"CQ   AA"),
        (1760, b"CQ  AAA"),
        (21443, b"CQ AAAA"),
        (532443, b"CQ ZZZZ"),
    ];
    for (num, ret) in testcases {
        let c = C28(*num);
        c.to_string(&mut out);
        assert_eq!(&out[..], *ret);
    }
}

#[test]
fn test_c58() {
    let testcases: &[(&[u8], u64)] = &[(b"", 0)];

    let mut buf = [0; 11];
    for &(call, val) in testcases.iter() {
        let c58 = C58::from_call(call).unwrap();
        assert_eq!(c58.0, val);
        let n = c58.write_str(&mut buf).unwrap();
        assert_eq!(&buf[..n], call);
    }
}

#[test]
fn test_hash_match() {
    assert!(CallsignHash::H22(0x000000).matches(&CallsignHash::H22(0x000000)));
    assert!(!CallsignHash::H22(0x000001).matches(&CallsignHash::H22(0x000000)));

    assert!(CallsignHash::H22(0x000001).matches(&CallsignHash::H12(0x000)));
    assert!(CallsignHash::H22(0x000400).matches(&CallsignHash::H12(0x001)));
    assert!(CallsignHash::H22(0x0007ff).matches(&CallsignHash::H12(0x001)));
    assert!(!CallsignHash::H22(0x000800).matches(&CallsignHash::H12(0x001)));

    assert!(CallsignHash::H12(0x000).matches(&CallsignHash::H12(0x000)));
    assert!(!CallsignHash::H12(0x001).matches(&CallsignHash::H12(0x000)));

    assert!(CallsignHash::H12(0x004).matches(&CallsignHash::H10(0x001)));
    assert!(CallsignHash::H12(0x007).matches(&CallsignHash::H10(0x001)));
    assert!(!CallsignHash::H12(0x008).matches(&CallsignHash::H10(0x001)));

    assert!(CallsignHash::H22(0x001000).matches(&CallsignHash::H10(0x001)));
    assert!(CallsignHash::H22(0x001fff).matches(&CallsignHash::H10(0x001)));
    assert!(!CallsignHash::H22(0x002000).matches(&CallsignHash::H10(0x001)));
}

#[test]
fn c28_words_and_numbers() {
    let mut out = [0u8; 16];
    assert_eq!(C28::de(), C28(0));
    assert_eq!(C28::qrz(), C28(1));
    assert_eq!(C28::cq(), C28(2));
    let n = C28(3 + 123).write_str(&mut out, None::<&Table>).unwrap();
    assert_eq!(&out[..n], b"CQ 123");
    let n = C28(1002).write_str(&mut out, None::<&Table>).unwrap();
    assert_eq!(&out[..n], b"CQ 999");
    let n = C28(1003).write_str(&mut out, None::<&Table>).unwrap();
    assert_eq!(&out[..n], b"CQ ");
    let n = C28(1000000).write_str(&mut out, None::<&Table>).unwrap();
    assert_eq!(n, 0);
}

#[test]
fn c28_rejects_what_does_not_normalise() {
    assert!(C28::from_call(b"A").is_none());
    assert!(C28::from_call(b"JA1ZLOX").is_none());
    assert!(C28::from_call(b"JAAZLO").is_none());
    assert!(C28::from_call(b"JA1Z1O").is_none());
    assert!(C28::from_call(b"").is_none());
    assert_eq!(C28::from_call(b"  ja1zlo ").unwrap().0, 149982772);
}

#[test]
fn c28_short_buffer() {
    let mut out = [0u8; 5];
    assert_eq!(C28(149982772).write_str(&mut out, None::<&Table>), None);
    assert_eq!(out, [0u8; 5]);
    let mut one = [0u8; 1];
    assert_eq!(C28(0).write_str(&mut one, None::<&Table>), None);
    assert_eq!(C28(1004).write_str(&mut one, None::<&Table>), None);
}

#[test]
fn c28_hash_reference() {
    let c = C28::from_hash(12904);
    assert!(c.is_hash());
    assert!(!C28(149982772).is_hash());
    let mut out = [0u8; 16];
    let n = c.write_str(&mut out, None::<&Table>).unwrap();
    assert_eq!(&out[..n], b"<12904>");
    let mut table = Table::new();
    table.set(12904, *b"JA1ZLO/1   ");
    let n = c.write_str(&mut out, Some(&table)).unwrap();
    assert_eq!(&out[..n], b"<JA1ZLO/1>");
    let mut fixed = [0u8; 7];
    c.to_string(&mut fixed);
    assert_eq!(&fixed, b"<.....>");
    C28(1000000).to_string(&mut fixed);
    assert_eq!(&fixed, b"ERROR  ");
}

#[test]
fn c28_callsign_text() {
    let mut out = [0u8; 6];
    assert!(C28(10214965).callsign(&mut out));
    assert_eq!(&out, b" K1ABC");
    assert!(!C28(2).callsign(&mut out));
}

#[test]
fn alphas_both_ways() {
    assert_eq!(alphas_to_num(b"A"), 0);
    assert_eq!(alphas_to_num(b"BA"), 26);
    assert_eq!(alphas_to_num(b"ZZ"), 675);
    let mut out = [0u8; 4];
    num_to_alphas(28, &mut out);
    assert_eq!(&out, b"  AA");
    num_to_alphas(531440, &mut out);
    assert_eq!(&out, b"ZZZZ");
}

#[test]
fn c58_round_trip() {
    let mut buf = [0u8; 20];
    let c = C58::from_call(b"PJ4/K1ABC").unwrap();
    let n = c.write_str(&mut buf).unwrap();
    assert_eq!(&buf[..n], b"PJ4/K1ABC");
    let c = C58::from_call(b" ja1zlo/1 ").unwrap();
    let n = c.write_str(&mut buf).unwrap();
    assert_eq!(&buf[..n], b"JA1ZLO/1");
    assert_eq!(C58::from_call(b"A").unwrap().0, 11);
    assert_eq!(C58::from_call(b"A/").unwrap().0, 11 * 38 + 37);
    assert!(C58::from_call(b"ABCDEFGHIJKL").is_none());
    assert!(C58::from_call(b"AB+").is_none());
    let mut short = [0u8; 3];
    assert_eq!(C58::from_call(b"K1ABC").unwrap().write_str(&mut short), None);
}

#[test]
fn hash_of_known_callsigns() {
    assert_eq!(hash_callsign(b"JA1ZLO"), Some(CallsignHash::H22(3380585)));
    assert_eq!(hash_callsign(b"JA1ZLO/1"), Some(CallsignHash::H22(12904)));
    assert_eq!(hash_callsign(b"JJ1FYD"), Some(CallsignHash::H22(2882573)));
    assert_eq!(hash_callsign(b" JJ1FYD  "), Some(CallsignHash::H22(2882573)));
    assert_eq!(hash_callsign(b"JA1ZLO+"), None);
    assert_eq!(hash_callsign(b"ABCDEFGHIJKL"), None);
}

#[test]
fn hash_forms() {
    let h = CallsignHash::H22(3380585);
    assert_eq!(h.depth(), 22);
    assert_eq!(CallsignHash::H12(5).depth(), 12);
    assert_eq!(CallsignHash::H10(5).depth(), 10);
    assert_eq!(h.as_u32(), 3380585);
    assert_eq!(CallsignHash::H12(5).as_u32(), 5 << 10);
    assert_eq!(CallsignHash::H10(5).as_u32(), 5 << 12);
    assert_eq!(h.as_h12(), (3380585u32 >> 10) as u16);
    assert_eq!(CallsignHash::H12(5).as_h12(), 5);
    assert_eq!(h.range(), 3380585..3380586);
    assert_eq!(CallsignHash::H12(5).range(), 5120..6144);
    assert_eq!(CallsignHash::H10(5).range(), 20480..24576);
}

#[test]
fn hash_table_keeps_what_fits() {
    let mut table = Table::new();
    assert_eq!(table.count(), 0);
    assert_eq!(table.get(7), None);
    table.set(7, *b"AAAAAA     ");
    table.set(8, *b"BBBBBB     ");
    table.set((5 << 12) | 1, *b"CCCCCC     ");
    assert_eq!(table.count(), 3);
    assert_eq!(table.get(7), Some(b"AAAAAA     "));
    assert_eq!(table.get(8), Some(b"BBBBBB     "));
    assert_eq!(table.get((5 << 12) | 1), Some(b"CCCCCC     "));
    table.set(7, *b"DDDDDD     ");
    assert_eq!(table.count(), 3);
    assert_eq!(table.get(7), Some(b"DDDDDD     "));
    let entries = table.get_partial(7);
    assert_eq!(entries.len(), 2);
    assert_eq!(entries[0].0, 7);
    assert_eq!(entries[1].0, 8);
}

#[test]
fn hash_table_evicts_the_oldest() {
    let mut table = Table::new();
    let base: u32 = 9 << 12;
    for k in 0..4u32 {
        table.set(base + k, [b'A' + k as u8; 11]);
    }
    assert_eq!(table.count(), 4);
    table.set(base + 1, [b'Z'; 11]);
    table.set(base + 4, [b'E'; 11]);
    assert_eq!(table.count(), 4);
    assert_eq!(table.get(base), None);
    assert_eq!(table.get(base + 4), Some(&[b'E'; 11]));
    assert_eq!(table.get(base + 1), Some(&[b'Z'; 11]));
    assert_eq!(table.get(base + 2), Some(&[b'C'; 11]));
    assert_eq!(table.get(base + 3), Some(&[b'D'; 11]));
    table.set(base + 5, [b'F'; 11]);
    assert_eq!(table.get(base + 2), None);
    assert_eq!(table.get(base + 5), Some(&[b'F'; 11]));
}

#[test]
fn short_hashes_are_resolved() {
    let mut table = Table::new();
    table.set(3380585, *b"JA1ZLO     ");
    let short = CallsignHash::H12((3380585u32 >> 10) as u16);
    let mut out = [0u8; 16];
    let n = short.write_str(&mut out, Some(&table)).unwrap();
    assert_eq!(&out[..n], b"<JA1ZLO>");
    let shorter = CallsignHash::H10((3380585u32 >> 12) as u16);
    assert_eq!(shorter.lookup(Some(&table)), Some(*b"JA1ZLO     "));
    let other = CallsignHash::H12(((3380585u32 >> 10) ^ 1) as u16);
    assert_eq!(other.lookup(Some(&table)), None);
    let n = CallsignHash::H22(0).write_str(&mut out, None::<&Table>).unwrap();
    assert_eq!(&out[..n], b"<0>");
    let mut short_buf = [0u8; 4];
    assert_eq!(CallsignHash::H22(3380585).write_str(&mut short_buf, Some(&table)), None);
}
