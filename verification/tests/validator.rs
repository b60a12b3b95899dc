use virtual_memory_sim::address::VirtualAddress;
use virtual_memory_sim::text::Error;
use virtual_memory_sim::validator::parse_record;
use virtual_memory_sim::virtual_memory::AccessResult;

#[test]
fn validator_equals() {
    let a = AccessResult {
        virtual_address: VirtualAddress::from(32),
        physical_address: 64,
        value: 14,
    };
    let b = AccessResult {
        virtual_address: VirtualAddress::from(32),
        physical_address: 64,
        value: 14,
    };
    let c = AccessResult {
        virtual_address: VirtualAddress::from(33),
        physical_address: 64,
        value: 14,
    };

    assert_eq!(a, b);
    assert_ne!(a, c);
}

#[test]
fn validator_iterator() {
    let lines: Vec<&str> = vec![
        "Virtual address: 16916 Physical address: 20 Value: 0\n",
        "Virtual address: 62493 Physical address: 285 Value: 0\n",
        "Virtual address: 12107 Physical address: 2635 Value: -46\n",
    ];
    let mut records = lines.iter().map(|line| parse_record(line.as_bytes()).unwrap());
    assert_eq!(
        records.next().unwrap(),
        AccessResult {
            virtual_address: VirtualAddress::from(16916),
            physical_address: 20,
            value: 0,
        }
    );

    assert_eq!(
        records.last().unwrap(),
        AccessResult {
            virtual_address: VirtualAddress::from(12107),
            physical_address: 2635,
            value: -46,
        }
    );
}

#[test]
fn equality_ignores_the_physical_address() {
    let a = AccessResult { virtual_address: VirtualAddress::from(32), physical_address: 64, value: 14 };
    let b = AccessResult { virtual_address: VirtualAddress::from(32), physical_address: 65, value: 14 };
    let c = AccessResult { virtual_address: VirtualAddress::from(32), physical_address: 64, value: 15 };
    let d = AccessResult { virtual_address: VirtualAddress::from(0x1_0020), physical_address: 64, value: 14 };
    assert_eq!(a, b);
    assert_ne!(a, c);
    assert_ne!(a, d);
}

#[test]
fn parse_record_reads_the_three_fields() {
    let record = parse_record(b"Virtual address: 12107 Physical address: 2635 Value: -46").unwrap();
    assert_eq!(record.virtual_address, VirtualAddress::from(12107));
    assert_eq!(record.physical_address, 2635);
    assert_eq!(record.value, -46);
    let record = parse_record(b"a b 1 c d 2 e 3 and more").unwrap();
    assert_eq!(record.virtual_address, VirtualAddress::from(1));
    assert_eq!(record.physical_address, 2);
    assert_eq!(record.value, 3);
    let record = parse_record(b"  a\tb  70000 c d   4294967295 e -128  ").unwrap();
    assert_eq!(record.virtual_address.extra_bits, 1);
    assert_eq!(record.physical_address, u32::MAX);
    assert_eq!(record.value, -128);
}

#[test]
fn parse_record_refuses_short_lines() {
    assert!(matches!(parse_record(b""), Err(Error::TooFewTokens)));
    assert!(matches!(parse_record(b"Virtual address: 12107 Physical address: 2635 Value:"), Err(Error::TooFewTokens)));
    assert!(matches!(parse_record(b"1 2 3 4 5 6 7"), Err(Error::TooFewTokens)));
}

#[test]
fn parse_record_refuses_what_is_no_number() {
    assert!(matches!(parse_record(b"Virtual address: x Physical address: 2635 Value: -46"), Err(Error::NotANumber)));
    assert!(matches!(parse_record(b"Virtual address: 1 Physical address: -5 Value: -46"), Err(Error::NotANumber)));
    assert!(matches!(parse_record(b"Virtual address: 1 Physical address: 5 Value: 128"), Err(Error::NotANumber)));
    assert!(matches!(parse_record(b"Virtual address: 4294967296 Physical address: 5 Value: 1"), Err(Error::NotANumber)));
}
