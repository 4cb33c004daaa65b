use flif::chances::{ChanceTable, ChanceTableEntry, UpdateTable};
use flif::error::Error;
use flif::predict::median3;
use flif::rac::Rac;
use flif::reader::ByteReader;

const BITS: [(u32, bool); 8] = [
    (3333, true),
    (567, false),
    (123, false),
    (3990, true),
    (1, false),
    (4000, true),
    (2780, true),
    (4095, true),
];

fn varint_of(bytes: &[u8]) -> Result<u32, Error> {
    ByteReader::new(bytes).read_varint()
}

/// The shortest varint encoding of `x`, most significant group first.
fn encode_varint(mut x: u32) -> Vec<u8> {
    let mut groups = vec![(x & 0x7F) as u8];
    x >>= 7;
    while x > 0 {
        groups.push(((x & 0x7F) as u8) | 0x80);
        x >>= 7;
    }
    groups.reverse();
    groups
}

#[test]
fn test_bitwise_negation() {
    let n = -6;
    assert_eq!(6, !n + 1);
}

#[test]
fn rac_test_rac_bidirectional_chance() {
    let mut writer_rac = Rac::from_writer();
    for &(chance, bit) in BITS.iter() {
        writer_rac.write_chance(chance, bit);
    }
    writer_rac.flush();
    let buf = writer_rac.into_bytes();

    let mut reader_rac = Rac::from_reader(ByteReader::new(&buf));
    for &(chance, bit) in BITS.iter() {
        assert_eq!(bit, reader_rac.read_chance(chance));
    }
}

#[test]
fn rac_test_rac_bidirectional_bits() {
    let mut writer_rac = Rac::from_writer();
    for &(_, bit) in BITS.iter() {
        writer_rac.write_bit(bit);
    }
    writer_rac.flush();
    let buf = writer_rac.into_bytes();

    let mut reader_rac = Rac::from_reader(ByteReader::new(&buf));
    for &(_, bit) in BITS.iter() {
        assert_eq!(bit, reader_rac.read_bit());
    }
}

#[test]
fn test_varint_read() {
    let buf = [0x82, 0x5F, 0x82, 0x2F];
    let first: u32 = varint_of(&buf).unwrap();
    let second: u32 = varint_of(&buf[2..]).unwrap();
    assert_eq!(first, 351);
    assert_eq!(second, 303);
}

#[test]
fn test_varint_max_read() {
    let buf = [0x8F, 0xFF, 0xFF, 0xFF, 0x7F];
    let num: u32 = varint_of(&buf).unwrap();
    assert_eq!(num, u32::MAX);
}

#[test]
fn test_varint_min_read() {
    let buf = [0x00];
    let num: u32 = varint_of(&buf).unwrap();
    assert_eq!(num, u32::MIN);
}

#[test]
fn test_varint_overflow_read() {
    let buf = [0xFF, 0xFF, 0xFF, 0xFF, 0x7F];
    assert!(matches!(varint_of(&buf), Err(Error::InvalidVarint)));
}

#[test]
fn varint_truncated_is_eof() {
    assert!(matches!(varint_of(&[0x82]), Err(Error::UnexpectedEof)));
    assert!(matches!(varint_of(&[]), Err(Error::UnexpectedEof)));
}

#[test]
fn varint_round_trip_values() {
    for &x in [0u32, 1, 127, 128, 300, 16383, 16384, 2_000_000, 0x0FFF_FFFF, u32::MAX - 1, u32::MAX].iter() {
        let bytes = encode_varint(x);
        let mut reader = ByteReader::new(&bytes);
        assert_eq!(reader.read_varint().unwrap(), x);
        assert_eq!(reader.pos, bytes.len());
    }
}

#[test]
fn varint_stops_after_last_group() {
    let mut reader = ByteReader::new(&[0x82, 0x5F, 0x07]);
    assert_eq!(reader.read_varint().unwrap(), 351);
    assert_eq!(reader.pos, 2);
    assert_eq!(reader.read_varint().unwrap(), 7);
}

#[test]
fn median3_picks_middle() {
    assert_eq!(median3(1, 2, 3), 2);
    assert_eq!(median3(3, 1, 2), 2);
    assert_eq!(median3(2, 3, 1), 2);
    assert_eq!(median3(-5, 7, 7), 7);
    assert_eq!(median3(4, 4, -9), 4);
    assert_eq!(median3(0, 0, 0), 0);
    assert_eq!(median3(-3, -10, 8), -3);
}

#[test]
fn median3_ignores_order() {
    let triples = [(9, -2, 4), (0, 100, -100), (5, 5, 1), (-7, -8, -6)];
    for &(a, b, c) in triples.iter() {
        let m = median3(a, b, c);
        assert_eq!(m, median3(b, a, c));
        assert_eq!(m, median3(a, c, b));
        assert_eq!(m, median3(c, b, a));
        assert_eq!(m, median3(b, c, a));
        assert_eq!(m, median3(c, a, b));
    }
}

#[test]
fn update_table_moves_chances_the_right_way() {
    let table = UpdateTable::new(19, 2);
    assert_eq!(table.updates.len(), 4096);
    for c in 2u16..=4094 {
        let up = table.next_chance(true, c);
        let down = table.next_chance(false, c);
        assert!(up >= c && up <= 4094);
        assert!(down <= c && down >= 2);
    }
    assert!(table.next_chance(true, 2048) > 2048);
    assert!(table.next_chance(false, 2048) < 2048);
}

#[test]
fn chance_table_seeds() {
    let table = ChanceTable::new();
    assert_eq!(table.get_chance(ChanceTableEntry::Zero), 1000);
    assert_eq!(table.get_chance(ChanceTableEntry::Sign), 2048);
    assert_eq!(table.get_chance(ChanceTableEntry::Exp(0, true)), 1000);
    assert_eq!(table.get_chance(ChanceTableEntry::Exp(6, false)), 2800);
    assert_eq!(table.get_chance(ChanceTableEntry::Exp(12, false)), 2048);
    assert_eq!(table.get_chance(ChanceTableEntry::Mant(0)), 1900);
    assert_eq!(table.get_chance(ChanceTableEntry::Mant(7)), 2048);
}

#[test]
fn chances_stay_inside_after_many_reads() {
    let updates = UpdateTable::new(19, 2);
    let mut table = ChanceTable::new();
    for _ in 0..5000 {
        table.update_entry(true, ChanceTableEntry::Zero, &updates);
        table.update_entry(false, ChanceTableEntry::Sign, &updates);
    }
    let zero = table.get_chance(ChanceTableEntry::Zero);
    let sign = table.get_chance(ChanceTableEntry::Sign);
    assert!(zero >= 1 && zero <= 4095);
    assert!(sign >= 1 && sign <= 4095);
    assert!(zero > 3000);
    assert!(sign < 1000);

    let mut rac = Rac::from_reader(ByteReader::new(&[0x12, 0x34, 0x56, 0x78, 0x9A, 0xBC, 0xDE, 0xF0]));
    let mut ctx = ChanceTable::new();
    for i in 0..2000u32 {
        let entry = if i % 3 == 0 { ChanceTableEntry::Zero } else { ChanceTableEntry::Mant((i % 5) as u8) };
        rac.read(&mut ctx, entry, &updates);
    }
    for &c in ctx.chances.iter() {
        assert!(c >= 1 && c <= 4095);
    }
}

#[test]
fn near_zero_single_value_reads_nothing() {
    let updates = UpdateTable::new(19, 2);
    let mut table = ChanceTable::new();
    let mut rac = Rac::from_reader(ByteReader::new(&[1, 2, 3, 4]));
    assert_eq!(rac.read_near_zero(7, 7, &mut table, &updates).unwrap(), 7);
    assert_eq!(rac.io.pos, 3);
    assert!(matches!(rac.read_near_zero(3, 2, &mut table, &updates), Err(Error::InvalidOperation(_))));
}

#[test]
fn near_zero_stays_in_bounds() {
    let updates = UpdateTable::new(19, 2);
    let data: Vec<u8> = (0..64u32).map(|i| (i * 37 + 11) as u8).collect();
    let mut rac = Rac::from_reader(ByteReader::new(&data));
    let mut table = ChanceTable::new();
    for &(lo, hi) in [(-5, 5), (3, 90), (-200, -100), (0, 1), (-1, 0), (-30000, 30000)].iter() {
        for _ in 0..20 {
            let v = rac.read_near_zero(lo, hi, &mut table, &updates).unwrap();
            assert!(v >= lo && v <= hi);
        }
    }
}

#[test]
fn uniform_read_in_bounds() {
    let mut rac = Rac::from_reader(ByteReader::new(&[0xFF, 0xFF, 0xFF]));
    assert_eq!(rac.read_val(0, 13), 13);
    let mut rac = Rac::from_reader(ByteReader::new(&[0, 0, 0, 0]));
    assert_eq!(rac.read_val(2, 128), 2);
    assert_eq!(rac.read_val(9, 9), 9);
}

#[test]
fn rac_round_trip_long_sequence() {
    let mut seed: u64 = 0x2545_F491_4F6C_DD1D;
    let mut next = move || {
        seed ^= seed << 13;
        seed ^= seed >> 7;
        seed ^= seed << 17;
        seed
    };
    let pairs: Vec<(u32, bool)> = (0..5000)
        .map(|_| {
            let chance = (next() % 4095 + 1) as u32;
            let bit = (next() % 4096) < chance as u64;
            (chance, bit)
        })
        .collect();
    let mut writer = Rac::from_writer();
    for &(chance, bit) in pairs.iter() {
        writer.write_chance(chance, bit);
    }
    writer.flush();
    let buf = writer.into_bytes();
    let mut reader = Rac::from_reader(ByteReader::new(&buf));
    for &(chance, bit) in pairs.iter() {
        assert_eq!(bit, reader.read_chance(chance));
    }
}

#[test]
fn rac_round_trip_unlikely_bits() {
    // bits against the odds force long carries
    let mut writer = Rac::from_writer();
    let pairs: Vec<(u32, bool)> = (0..3000).map(|i| (if i % 2 == 0 { 4095 } else { 1 }, i % 3 == 0)).collect();
    for &(chance, bit) in pairs.iter() {
        writer.write_chance(chance, bit);
    }
    writer.flush();
    let buf = writer.into_bytes();
    let mut reader = Rac::from_reader(ByteReader::new(&buf));
    for &(chance, bit) in pairs.iter() {
        assert_eq!(bit, reader.read_chance(chance));
    }
}
