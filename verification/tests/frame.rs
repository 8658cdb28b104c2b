use nanoft8::bits::Bitset;
use nanoft8::decoder::{
    bucket, buffer_index, costas_row, frame_start, marker_bin, payload_row, phase,
    strongest_tone, tone_bit, trailing_symbol, weakest_bin, Phase,
};
use nanoft8::minifloat::{FloatS, FloatU, F8, Fu8, _F8};
use nanoft8::protocol::crc::{add_crc, calc_crc, check_crc};
use nanoft8::protocol::ldpc::{check, encode, pack_message, unpack_bits, SolveControl};
use nanoft8::protocol::message::callsign::c28::C28;
use nanoft8::protocol::message::callsign::c58::C58;
use nanoft8::protocol::message::callsign::hash::{hash_callsign, CallsignHash};
use nanoft8::protocol::message::callsign::hashtable::HashTable;
use nanoft8::protocol::message::freetext::F71;
use nanoft8::protocol::message::grid15::G15;
use nanoft8::protocol::message::roger2::R2;
use nanoft8::protocol::message::{register, Message, T71};
use nanoft8::protocol::{encode_symbols, GRAY_CODE, GRAY_CODE_INV, MARKER_COSTAS};

type Table = HashTable<[u8; 11], 2, 4>;

fn text(m: &Message, table: Option<&Table>) -> String {
    let mut buf = [0u8; 64];
    let n = m.write_str(&mut buf, table).unwrap();
    String::from_utf8_lossy(&buf[..n]).into_owned()
}

fn example() -> Message {
    Message::StdMsg {
        call1: C28::from_call(b"JA1ZLO").unwrap(),
        call1_r: false,
        call2: C28::from_call(b"JA1YWX").unwrap(),
        call2_r: false,
        r: true,
        grid: G15::from_grid_string(b"PM95"),
    }
}

#[test]
fn a_message_through_the_whole_chain() {
    let msg = example();
    assert_eq!(text(&msg, None), "JA1ZLO JA1YWX R PM95");
    let body = msg.encode();
    let checked = add_crc(body);
    assert!(check_crc(&checked));
    let word = encode(&checked);
    let bools = unpack_bits(&word);
    assert_eq!(check(&bools), 0);
    let back = pack_message(&bools);
    assert_eq!(back.words(), checked.words());
    assert!(check_crc(&back));
    let decoded = Message::decode(&back.with_size::<77, 3>()).unwrap();
    assert_eq!(text(&decoded, None), "JA1ZLO JA1YWX R PM95");
    assert_eq!(decoded.encode().words(), body.words());
}

#[test]
fn a_damaged_word_fails_checks() {
    let word = encode(&add_crc(example().encode()));
    let mut bools = unpack_bits(&word);
    bools[5] = !bools[5];
    assert_eq!(check(&bools), 3);
    bools[100] = !bools[100];
    assert!(check(&bools) > 0);
    let zero = [false; 174];
    assert_eq!(check(&zero), 0);
}

#[test]
fn checksum_detects_every_single_flip() {
    let checked = add_crc(example().encode());
    for i in 0..91 {
        let mut damaged = checked;
        damaged.set(i, !damaged.get(i));
        assert!(!check_crc(&damaged));
    }
    let zero = Bitset::<77, 3>::new();
    assert_eq!(calc_crc(&zero), 0);
    let mut one = Bitset::<77, 3>::new();
    one.set(76, true);
    assert_eq!(calc_crc(&one), 14452);
}

#[test]
fn every_shape_is_recovered_from_its_bits() {
    let body = Bitset::<77, 3>::from_words([0x1234_5678, 0x9abc_def0, 0x0f00_0000]);
    let shapes = [
        Message::FreeText(F71::from_string(b"HELLO WORLD").unwrap()),
        Message::DXpedition,
        Message::FieldDay0,
        Message::FieldDay1,
        Message::Telemetry(T71(body)),
        example(),
        Message::EuVhf {
            call1: C28::from_call(b"G4ABC").unwrap(),
            call1_p: true,
            call2: C28::from_call(b"PA9XYZ").unwrap(),
            call2_p: false,
            r: false,
            grid: G15::from_grid_string(b"JO22"),
        },
        Message::RttyRu,
        Message::NonStdCall {
            hash: CallsignHash::H12(0x123),
            call: C58::from_call(b"PJ4/K1ABC").unwrap(),
            hash_is_second: true,
            r: R2::RR73,
            cq: false,
        },
        Message::EuVhfHash,
    ];
    for m in shapes.iter() {
        let bits = m.encode();
        let back = Message::decode(&bits).unwrap();
        assert_eq!(format!("{:?}", back), format!("{:?}", m));
        assert_eq!(back.encode().words(), bits.words());
    }
}

#[test]
fn telemetry_keeps_its_body() {
    let body = Bitset::<77, 3>::from_words([0xdead_beef, 0x0123_4567, 0xa900_0000]);
    let m = Message::decode(&body).unwrap();
    assert_eq!(format!("{:?}", m), format!("{:?}", Message::Telemetry(T71(body))));
    assert_eq!(m.encode().words(), body.words());
    let plain = Message::Telemetry(T71(Bitset::<77, 3>::from_words([0xdead_beef, 0, 0])));
    assert_eq!(plain.encode().words(), [0xdead_beef, 0, 0x0100_0000]);
}

#[test]
fn type_tags() {
    assert_eq!(Message::DXpedition.encode().slice(71, 3), 1);
    assert_eq!(Message::FieldDay1.encode().slice(71, 3), 3);
    assert_eq!(Message::RttyRu.encode().slice(74, 3), 3);
    assert_eq!(Message::EuVhfHash.encode().slice(74, 3), 5);
    assert_eq!(example().encode().slice(74, 3), 1);
    assert_eq!(example().encode().slice(0, 28), 149982772);
    let mut reserved = Bitset::<77, 3>::new();
    reserved.set_slice(74, 3, 6);
    assert!(Message::decode(&reserved).is_none());
    reserved.set_slice(74, 3, 7);
    assert!(Message::decode(&reserved).is_none());
    reserved.set_slice(74, 3, 0);
    reserved.set_slice(71, 3, 5);
    assert!(Message::decode(&reserved).is_none());
}

#[test]
fn messages_as_text() {
    let m = Message::StdMsg {
        call1: C28::from_call(b"K1ABC").unwrap(),
        call1_r: true,
        call2: C28::from_call(b"W9XYZ").unwrap(),
        call2_r: true,
        r: true,
        grid: G15::from_grid_string(b"EN37"),
    };
    assert_eq!(text(&m, None), " K1ABC/R  W9XYZ/R R EN37");
    let m = Message::EuVhf {
        call1: C28::from_call(b"JA1ZLO").unwrap(),
        call1_p: true,
        call2: C28::cq(),
        call2_p: false,
        r: false,
        grid: G15::rr73(),
    };
    assert_eq!(text(&m, None), "JA1ZLO/P CQ RR73");
    assert_eq!(text(&Message::DXpedition, None), "DXpedition");
    assert_eq!(text(&Message::FieldDay0, None), "FieldDay0");
    assert_eq!(text(&Message::FieldDay1, None), "FieldDay1");
    assert_eq!(text(&Message::Telemetry(T71(Bitset::<77, 3>::new())), None), "Telemetry");
    assert_eq!(text(&Message::RttyRu, None), "RttyRu");
    assert_eq!(text(&Message::EuVhfHash, None), "EuVhfHash");
    assert_eq!(
        text(&Message::FreeText(F71::from_string(b"TNX BOB 73 GL").unwrap()), None),
        "TNX BOB 73 GL"
    );
    let call = C58::from_call(b"PJ4/K1ABC").unwrap();
    let hash = CallsignHash::H12((3380585u32 >> 10) as u16);
    let m = Message::NonStdCall { hash, call, hash_is_second: false, r: R2::RRR, cq: false };
    assert_eq!(text(&m, None), format!("<{}> PJ4/K1ABC RRR", (3380585u32 >> 10) << 10));
    let mut table = Table::new();
    register(&mut table, b"JA1ZLO");
    assert_eq!(text(&m, Some(&table)), "<JA1ZLO> PJ4/K1ABC RRR");
    let m = Message::NonStdCall { hash, call, hash_is_second: true, r: R2::BLANK, cq: false };
    assert_eq!(text(&m, Some(&table)), "PJ4/K1ABC <JA1ZLO>  ");
    let m = Message::NonStdCall { hash, call, hash_is_second: true, r: R2::V73, cq: true };
    assert_eq!(text(&m, Some(&table)), "CQ PJ4/K1ABC");
    let mut short = [0u8; 19];
    assert_eq!(example().write_str(&mut short, None::<&Table>), None);
    assert_eq!(short, [0u8; 19]);
    let mut exact = [0u8; 20];
    assert_eq!(example().write_str(&mut exact, None::<&Table>), Some(20));
}

#[test]
fn callsigns_are_registered_under_their_hashes() {
    let mut table = Table::new();
    example().register_callsigns(&mut table);
    assert_eq!(table.count(), 2);
    assert_eq!(table.get(3380585), Some(b"JA1ZLO     "));
    let other = hash_callsign(b"JA1YWX").unwrap().as_u32();
    assert_eq!(table.get(other), Some(b"JA1YWX     "));
    let m = Message::NonStdCall {
        hash: CallsignHash::H12(0),
        call: C58::from_call(b"JA1ZLO/1").unwrap(),
        hash_is_second: false,
        r: R2::BLANK,
        cq: true,
    };
    m.register_callsigns(&mut table);
    assert_eq!(table.count(), 3);
    assert_eq!(table.get(12904), Some(b"JA1ZLO/1   "));
    Message::RttyRu.register_callsigns(&mut table);
    let cq = Message::StdMsg {
        call1: C28::cq(),
        call1_r: false,
        call2: C28::from_call(b"K1ABC").unwrap(),
        call2_r: false,
        r: false,
        grid: G15(32400),
    };
    cq.register_callsigns(&mut table);
    assert_eq!(table.count(), 4);
    assert_eq!(table.get(hash_callsign(b"K1ABC").unwrap().as_u32()), Some(b"K1ABC      "));
    let hashed = Message::StdMsg {
        call1: C28::from_hash(12904),
        call1_r: false,
        call2: C28::from_call(b"K1ABC").unwrap(),
        call2_r: false,
        r: false,
        grid: G15::rrr(),
    };
    assert_eq!(text(&hashed, Some(&table)), "<JA1ZLO/1>  K1ABC RRR");
}

#[test]
fn frame_of_tones() {
    let word = encode(&add_crc(example().encode()));
    let tones = encode_symbols(&word);
    for i in 0..7 {
        assert_eq!(tones[i] as usize, MARKER_COSTAS[i]);
        assert_eq!(tones[i + 36] as usize, MARKER_COSTAS[i]);
        assert_eq!(tones[i + 72] as usize, MARKER_COSTAS[i]);
    }
    for m in 0..58 {
        let pos = if m < 29 { m + 7 } else { m + 14 };
        assert_eq!(tones[pos], GRAY_CODE[word.slice(3 * m, 3) as usize]);
        assert_eq!(GRAY_CODE_INV[tones[pos] as usize] as u32, word.slice(3 * m, 3));
    }
    let zero = encode_symbols(&Bitset::<174, 6>::new());
    assert_eq!(&zero[..10], &[3, 1, 4, 0, 6, 5, 2, 0, 0, 0]);
}

#[test]
fn decoding_bookkeeping() {
    let mut c = SolveControl::new();
    assert!(c.more());
    assert!(c.observe(20));
    assert_eq!(c.min_err, 20);
    assert!(c.observe(12));
    assert_eq!(c.count_no_progress, 0);
    for _ in 0..9 {
        assert!(c.observe(12));
    }
    assert_eq!(c.count_no_progress, 9);
    assert!(!c.observe(13));
    assert_eq!(c.last_err, 13);
    let mut c = SolveControl::new();
    assert!(c.observe(5));
    assert!(!c.observe(0));
    assert_eq!(c.last_err, 0);
    assert_eq!(c.rounds, 2);
    let mut c = SolveControl::new();
    let mut err = 83u8;
    while c.more() {
        err -= 1;
        if err < 40 {
            err = 82;
            c.min_err = 83;
        }
        assert!(c.observe(err));
    }
    assert_eq!(c.rounds, 100);
}

#[test]
fn timetable() {
    assert_eq!(buffer_index(0), 0);
    assert_eq!(buffer_index(169), 0);
    assert_eq!(buffer_index(170), 1);
    assert_eq!(phase(0), Phase::Filling);
    assert_eq!(phase(167), Phase::Filling);
    assert_eq!(phase(168), Phase::Searching);
    assert_eq!(phase(252), Phase::Searching);
    assert_eq!(phase(253), Phase::Tracking);
    assert_eq!(frame_start(168), 0);
    assert_eq!(frame_start(200), 32);
    assert_eq!(costas_row(168, 0, 0), 0);
    assert_eq!(costas_row(168, 0, 6), 24);
    assert_eq!(costas_row(168, 1, 0), 144);
    assert_eq!(costas_row(168, 1, 6), 168);
    assert_eq!(payload_row(168, 0), 28);
    assert_eq!(payload_row(168, 28), 140);
    assert_eq!(trailing_symbol(168, 0), Some(28));
    assert_eq!(trailing_symbol(169, 0), None);
    assert_eq!(trailing_symbol(172, 0), Some(29));
    assert_eq!(trailing_symbol(284, 0), Some(57));
    assert_eq!(trailing_symbol(288, 0), None);
    assert_eq!(trailing_symbol(40, 0), None);
    assert_eq!(bucket(0), 0);
    assert_eq!(bucket(1023), 127);
    assert_eq!(marker_bin(0), 6);
    assert_eq!(marker_bin(3), 0);
    for tone in 0..8 {
        for j in 0..3 {
            assert_eq!(tone_bit(tone, j), (GRAY_CODE[tone] >> (2 - j)) & 1 == 1);
        }
    }
}

#[test]
fn one_byte_numbers() {
    for b in 0..=255u8 {
        assert_eq!(F8::from_f32_bits(F8::from_bits(b).as_f32_bits()).to_bits(), b);
        assert_eq!(Fu8::from_f32_bits(Fu8::from_bits(b).as_f32_bits()).to_bits(), b);
    }
    assert_eq!(f32::from_bits(F8::from_bits(0x60).as_f32_bits()), 1.0);
    assert_eq!(f32::from_bits(F8::from_bits(0xe0).as_f32_bits()), -1.0);
    assert_eq!(f32::from_bits(F8::from_bits(0x62).as_f32_bits()), 1.5);
    assert_eq!(f32::from_bits(F8::from_bits(0x7e).as_f32_bits()), 192.0);
    assert_eq!(f32::from_bits(F8::from_bits(0x7f).as_f32_bits()), f32::INFINITY);
    assert_eq!(f32::from_bits(F8::from_bits(0xff).as_f32_bits()), f32::NEG_INFINITY);
    assert_eq!(F8::from_bits(0x80).as_f32_bits(), 0x8000_0000);
    assert_eq!(f32::from_bits(F8::from_bits(1).as_f32_bits()), 2.0f32.powi(-25));
    assert_eq!(f32::from_bits(F8::from_bits(3).as_f32_bits()), 3.0 * 2.0f32.powi(-25));
    assert_eq!(f32::from_bits(F8::from_bits(4).as_f32_bits()), 2.0f32.powi(-23));
    assert_eq!(F8::from_f32_bits(1.0f32.to_bits()).to_bits(), 0x60);
    assert_eq!(F8::from_f32_bits(1.49f32.to_bits()).to_bits(), 0x61);
    assert_eq!(F8::from_f32_bits((-2.0f32).to_bits()).to_bits(), 0xe4);
    assert_eq!(F8::from_f32_bits(1000.0f32.to_bits()).to_bits(), 0x7f);
    assert_eq!(F8::from_f32_bits(f32::NAN.to_bits()).to_bits() & 0x7f, 0x7f);
    assert_eq!(F8::from_f32_bits(1e-20f32.to_bits()).to_bits(), 0);
    assert_eq!(F8::zero().to_bits(), 0);
    assert_eq!(f32::from_bits(Fu8::from_bits(0x60).as_f32_bits()), 1.0);
    assert_eq!(f32::from_bits(Fu8::from_bits(0x80).as_f32_bits()), 256.0);
    assert_eq!(f32::from_bits(Fu8::from_bits(0xff).as_f32_bits()), f32::INFINITY);
    assert_eq!(Fu8::from_f32_bits((-1.0f32).to_bits()).to_bits(), 0x60);
    assert_eq!(Fu8::from_f32_bits(1e30f32.to_bits()).to_bits(), 0xff);
    let mut last = -1.0f32;
    for b in 0..=255u8 {
        let v = f32::from_bits(Fu8::from_bits(b).to_f32_bits());
        assert!(v > last);
        last = v;
        assert_eq!(Fu8::from_bits(b).to_inner(), b as u32);
    }
    assert_eq!(F8::from_bits(0x60).to_f32_bits(), 0x3f80_0000);
}

#[test]
fn other_widths_of_mantissa() {
    type Wide = _F8<true, 4, 7>;
    type Bare = _F8<true, 7, 63>;
    type Flat = _F8<false, 0, 100>;
    type Long = _F8<false, 3, 3>;
    for b in 0..=255u8 {
        assert_eq!(Wide::from_f32_bits(Wide::from_bits(b).as_f32_bits()).to_bits(), b);
        assert_eq!(Bare::from_f32_bits(Bare::from_bits(b).as_f32_bits()).to_bits(), b);
        assert_eq!(Flat::from_f32_bits(Flat::from_bits(b).as_f32_bits()).to_bits(), b);
        assert_eq!(Long::from_f32_bits(Long::from_bits(b).as_f32_bits()).to_bits(), b);
    }
    assert_eq!(f32::from_bits(Wide::from_bits(0x38).as_f32_bits()), 1.0);
    assert_eq!(f32::from_bits(Wide::from_bits(0x3c).as_f32_bits()), 1.5);
    assert_eq!(f32::from_bits(Wide::from_bits(0x3f).as_f32_bits()), 1.875);
    assert_eq!(f32::from_bits(Wide::from_bits(0xb8).as_f32_bits()), -1.0);
    assert_eq!(f32::from_bits(Wide::from_bits(0x01).as_f32_bits()), 2.0f32.powi(-9));
    assert_eq!(f32::from_bits(Wide::from_bits(0x05).as_f32_bits()), 5.0 * 2.0f32.powi(-9));
    assert_eq!(f32::from_bits(Wide::from_bits(0x08).as_f32_bits()), 2.0f32.powi(-6));
    assert_eq!(f32::from_bits(Wide::from_bits(0x7e).as_f32_bits()), 448.0);
    assert_eq!(f32::from_bits(Wide::from_bits(0x7f).as_f32_bits()), f32::INFINITY);
    assert_eq!(Wide::from_f32_bits(1.99f32.to_bits()).to_bits(), 0x3f);
    assert_eq!(Wide::from_f32_bits((-1.6f32).to_bits()).to_bits(), 0xbc);
    assert_eq!(Wide::from_f32_bits(500.0f32.to_bits()).to_bits(), 0x7f);
    assert_eq!(Wide::from_f32_bits((5.5 * 2.0f32.powi(-9)).to_bits()).to_bits(), 0x05);
    assert_eq!(Wide::from_f32_bits(2.0f32.powi(-11).to_bits()).to_bits(), 0);
    assert_eq!(f32::from_bits(Bare::from_bits(0x3f).as_f32_bits()), 1.0);
    assert_eq!(f32::from_bits(Bare::from_bits(0x40).as_f32_bits()), 2.0);
    assert_eq!(Bare::from_f32_bits(3.9f32.to_bits()).to_bits(), 0x40);
    assert_eq!(f32::from_bits(Flat::from_bits(0x80).as_f32_bits()), 2.0f32.powi(-100));
    assert_eq!(f32::from_bits(Flat::from_bits(0x01).as_f32_bits()), 2.0f32.powi(-107));
    assert_eq!(f32::from_bits(Flat::from_bits(0xc1).as_f32_bits()), 193.0 * 2.0f32.powi(-107));
    assert_eq!(f32::from_bits(Long::from_bits(0x60).as_f32_bits()), 1.0);
    assert_eq!(f32::from_bits(Long::from_bits(0x7f).as_f32_bits()), 1.96875);
    let mut last = -1.0f32;
    for b in 0..=255u8 {
        let v = f32::from_bits(Long::from_bits(b).as_f32_bits());
        assert!(v > last);
        last = v;
    }
}

#[test]
fn strongest_and_weakest() {
    let keys = [5u32, 99, 7, 99, 7, 1, 3, 0, 2, 0, 6, 50, 7, 50, 1];
    assert_eq!(strongest_tone(&keys), 12);
    assert_eq!(weakest_bin(&keys), 7);
    assert_eq!(strongest_tone(&[4]), 0);
    assert_eq!(weakest_bin(&[4]), 0);
    assert_eq!(strongest_tone(&[4, 9]), 0);
    assert_eq!(weakest_bin(&[4, 4, 4]), 0);
    assert_eq!(strongest_tone(&[4, 9, 4]), 2);
}
