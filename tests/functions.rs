use viking::functions::{
    encode_function_csv_entry, encode_functions, get_functions_from_csv, get_functions_from_rows,
    parse_address, parse_base_16, parse_function_csv_entry, to_absolute, to_relative,
    write_functions_csv, AddressError, Info, LoadError, RecordError, Status,
    ADDRESS_BASE,
};
use viking::lookup::{demangle_str, find_function_fuzzy, make_known_function_map, DemangleError};

fn info(addr: u64, size: u32, name: &str, status: Status) -> Info {
    Info { addr, size, name: name.to_string(), status }
}

fn row(fields: &[&str]) -> Vec<String> {
    fields.iter().map(|f| f.to_string()).collect()
}

fn header() -> Vec<String> {
    row(&["Address", "Quality", "Size", "Name"])
}

fn same(a: &[Info], b: &[Info]) -> bool {
    a.len() == b.len()
        && a.iter().zip(b).all(|(x, y)| {
            x.addr == y.addr && x.size == y.size && x.name == y.name && x.status == y.status
        })
}

fn load_text(text: &str) -> Result<Vec<Info>, LoadError> {
    get_functions_from_csv(text.as_bytes(), ADDRESS_BASE)
}

fn round_trip(entries: &[Info]) -> Vec<Info> {
    let bytes = write_functions_csv(entries, ADDRESS_BASE).expect("write");
    get_functions_from_csv(&bytes, ADDRESS_BASE).expect("load")
}

#[test]
fn example_round_trip_literal() {
    let entries = vec![
        info(0x10, 4, "foo", Status::Matching),
        info(0x20, 8, "", Status::NotDecompiled),
    ];
    let bytes = write_functions_csv(&entries, ADDRESS_BASE).unwrap();
    let text = String::from_utf8(bytes.clone()).unwrap();
    assert_eq!(
        text,
        "Address,Quality,Size,Name\n0x0000007100000010,O,000004,foo\n0x0000007100000020,U,000008,\n"
    );
    let loaded = get_functions_from_csv(&bytes, ADDRESS_BASE).unwrap();
    assert!(same(&entries, &loaded));
}

#[test]
fn round_trip_every_status_and_large_values() {
    let entries = vec![
        info(0, 0, "a", Status::Matching),
        info(1, 1234567, "b", Status::NonMatchingMinor),
        info(0xabcdef, u32::MAX, "c", Status::NonMatchingMajor),
        info(0x20, 8, "", Status::NotDecompiled),
        info(0x30, 12, "d", Status::Wip),
        info(0x40, 16, "", Status::Library),
        info(u64::MAX - ADDRESS_BASE, 1, "_ZN5space3fooEibc", Status::Library),
    ];
    assert!(same(&entries, &round_trip(&entries)));
}

#[test]
fn round_trip_empty_registry() {
    let entries: Vec<Info> = Vec::new();
    let loaded = round_trip(&entries);
    assert!(loaded.is_empty());
}

#[test]
fn empty_file_has_no_entries() {
    assert!(load_text("").unwrap().is_empty());
}

#[test]
fn unnamed_decompiled_function_is_rejected() {
    for (code, status) in [
        ("O", Status::Matching),
        ("m", Status::NonMatchingMinor),
        ("M", Status::NonMatchingMajor),
        ("W", Status::Wip),
    ] {
        let text = format!(
            "Address,Quality,Size,Name\n0x0000007100000010,U,000004,\n0x0000007100000020,{},000008,\n",
            code
        );
        match load_text(&text) {
            Err(LoadError::MissingName { address }) => assert_eq!(address, 0x7100000020),
            other => panic!("{:?} gave {:?}", status, other),
        }
        let entries = vec![info(0x20, 8, "", status)];
        let bytes = write_functions_csv(&entries, ADDRESS_BASE).unwrap();
        assert!(matches!(
            get_functions_from_csv(&bytes, ADDRESS_BASE),
            Err(LoadError::MissingName { address: 0x7100000020 })
        ));
    }
}

#[test]
fn unnamed_library_function_is_accepted() {
    let text = "Address,Quality,Size,Name\n0x0000007100000010,L,000004,\n";
    let loaded = load_text(text).unwrap();
    assert_eq!(loaded.len(), 1);
    assert_eq!(loaded[0].status, Status::Library);
}

#[test]
fn duplicate_names_are_listed() {
    let entries = vec![
        info(0x10, 4, "foo", Status::Matching),
        info(0x20, 4, "bar", Status::Matching),
        info(0x30, 4, "foo", Status::Wip),
        info(0x40, 4, "bar", Status::NotDecompiled),
        info(0x50, 4, "foo", Status::Library),
        info(0x60, 4, "", Status::Library),
        info(0x70, 4, "", Status::Library),
    ];
    let bytes = write_functions_csv(&entries, ADDRESS_BASE).unwrap();
    match get_functions_from_csv(&bytes, ADDRESS_BASE) {
        Err(LoadError::DuplicateNames(names)) => {
            assert_eq!(names, vec!["foo".to_string(), "bar".to_string(), "foo".to_string()])
        }
        other => panic!("unexpected {:?}", other),
    }
}

#[test]
fn missing_name_is_reported_before_duplicates() {
    let text = "Address,Quality,Size,Name\n0x0000007100000010,O,000004,foo\n0x0000007100000020,O,000004,foo\n0x0000007100000030,O,000004,\n";
    assert!(matches!(
        load_text(text),
        Err(LoadError::MissingName { address: 0x7100000030 })
    ));
}

#[test]
fn wrong_header_is_rejected() {
    assert!(matches!(
        load_text("Address,Status,Size,Name\n0x0000007100000010,O,000004,foo\n"),
        Err(LoadError::WrongHeader)
    ));
    assert!(matches!(load_text("Address,Quality,Size\n"), Err(LoadError::WrongHeader)));
    assert!(matches!(
        load_text("0x0000007100000010,O,000004,foo\n"),
        Err(LoadError::WrongHeader)
    ));
    let rows = vec![row(&["Address", "Quality", "Size", "Name", "Extra"])];
    assert!(matches!(get_functions_from_rows(&rows, ADDRESS_BASE), Err(LoadError::WrongHeader)));
}

#[test]
fn bad_record_reports_its_line() {
    let text = "Address,Quality,Size,Name\n0x0000007100000010,O,000004,foo\n0x0000007100000020,X,000004,bar\n";
    match load_text(text) {
        Err(LoadError::Record { line, error }) => {
            assert_eq!(line, 3);
            assert_eq!(error, RecordError::UnknownStatusCode('X'));
        }
        other => panic!("unexpected {:?}", other),
    }
}

#[test]
fn short_row_reports_its_line() {
    let text = "Address,Quality,Size,Name\n0x0000007100000010,O,000004,foo\n0x0000007100000020,O,000004\n";
    match load_text(text) {
        Err(LoadError::Record { line, error }) => {
            assert_eq!(line, 3);
            assert_eq!(error, RecordError::FieldCount(3));
        }
        other => panic!("unexpected {:?}", other),
    }
}

#[test]
fn short_header_before_full_rows_is_rejected() {
    let text = "Address,Quality,Size\n0x0000007100000010,O,000004,foo\n";
    assert!(matches!(load_text(text), Err(LoadError::WrongHeader)));
}

#[test]
fn invalid_utf8_is_a_csv_error() {
    let bytes: Vec<u8> = b"Address,Quality,Size,Name\n0x0000007100000010,O,000004,\xff\xfe\n".to_vec();
    assert!(matches!(get_functions_from_csv(&bytes, ADDRESS_BASE), Err(LoadError::Csv)));
}

#[test]
fn record_errors() {
    let base = ADDRESS_BASE;
    assert_eq!(
        parse_function_csv_entry(&row(&["0x7100000010", "O", "4"]), base).unwrap_err(),
        RecordError::FieldCount(3)
    );
    assert_eq!(
        parse_function_csv_entry(&row(&["0xzz", "O", "4", "f"]), base).unwrap_err(),
        RecordError::Address(AddressError::InvalidHex)
    );
    assert_eq!(
        parse_function_csv_entry(&row(&["0x10", "O", "4", "f"]), base).unwrap_err(),
        RecordError::Address(AddressError::BelowBase)
    );
    assert_eq!(
        parse_function_csv_entry(&row(&["0x7100000010", "O", "4x", "f"]), base).unwrap_err(),
        RecordError::InvalidSize
    );
    assert_eq!(
        parse_function_csv_entry(&row(&["0x7100000010", "O", "4294967296", "f"]), base)
            .unwrap_err(),
        RecordError::InvalidSize
    );
    assert_eq!(
        parse_function_csv_entry(&row(&["0x7100000010", "", "4", "f"]), base).unwrap_err(),
        RecordError::MissingStatusCode
    );
    assert_eq!(
        parse_function_csv_entry(&row(&["0x7100000010", "Q", "4", "f"]), base).unwrap_err(),
        RecordError::UnknownStatusCode('Q')
    );
    assert_eq!(
        parse_function_csv_entry(&row(&["0x7100000010", "OK", "4", "f"]), base).unwrap_err(),
        RecordError::StatusCodeTooLong
    );
    assert_eq!(
        parse_function_csv_entry(&row(&["0x7100000010", "Ux", "4", "f"]), base).unwrap_err(),
        RecordError::StatusCodeTooLong
    );
    assert_eq!(
        parse_function_csv_entry(&row(&["0x7100000010", "O", "+4", "f"]), base).unwrap_err(),
        RecordError::InvalidSize
    );
    assert_eq!(
        parse_function_csv_entry(&row(&["+0x7100000010", "O", "4", "f"]), base).unwrap_err(),
        RecordError::Address(AddressError::InvalidHex)
    );
    let f = parse_function_csv_entry(&row(&["7100000010", "m", "0012", "name"]), base).unwrap();
    assert_eq!((f.addr, f.size, f.name.as_str(), f.status), (0x10, 12, "name", Status::NonMatchingMinor));
}

#[test]
fn address_arithmetic() {
    assert_eq!(to_relative(0x7100000010, 0x7100000000), Ok(0x10));
    assert_eq!(to_relative(0x70ffffffff, 0x7100000000), Err(AddressError::BelowBase));
    assert_eq!(to_relative(0x7100000000, 0x7100000000), Ok(0));
    assert_eq!(to_absolute(0x10, 0x7100000000), 0x7100000010);
    assert_eq!(parse_address("0x7100000010", ADDRESS_BASE), Ok(0x10));
    assert_eq!(parse_address("0x10", ADDRESS_BASE), Err(AddressError::BelowBase));
}

#[test]
fn hex_parsing() {
    assert_eq!(parse_base_16("0x1f"), Ok(31));
    assert_eq!(parse_base_16("1F"), Ok(31));
    assert_eq!(parse_base_16("0xffffffffffffffff"), Ok(u64::MAX));
    assert_eq!(parse_base_16("0x10000000000000000"), Err(AddressError::InvalidHex));
    assert_eq!(parse_base_16(""), Err(AddressError::InvalidHex));
    assert_eq!(parse_base_16("0x"), Err(AddressError::InvalidHex));
    assert_eq!(parse_base_16("0xg"), Err(AddressError::InvalidHex));
    assert_eq!(parse_base_16("+"), Err(AddressError::InvalidHex));
    assert_eq!(parse_base_16("-1"), Err(AddressError::InvalidHex));
    assert_eq!(parse_base_16("+1"), Err(AddressError::InvalidHex));
    assert_eq!(parse_base_16("0x+1"), Err(AddressError::InvalidHex));
}

#[test]
fn entry_encoding() {
    let f = info(0x10, 4, "foo", Status::NonMatchingMajor);
    assert_eq!(
        encode_function_csv_entry(&f, ADDRESS_BASE),
        row(&["0x0000007100000010", "M", "000004", "foo"])
    );
    let g = info(0xabc, 12345678, "", Status::Wip);
    assert_eq!(
        encode_function_csv_entry(&g, ADDRESS_BASE),
        row(&["0x0000007100000abc", "W", "12345678", ""])
    );
    let rows = encode_functions(&[f, g], ADDRESS_BASE);
    assert_eq!(rows.len(), 3);
    assert_eq!(rows[0], header());
}

#[test]
fn status_codes_and_descriptions() {
    let all = [
        (Status::Matching, "O", "matching", true),
        (Status::NonMatchingMinor, "m", "non-matching (minor)", true),
        (Status::NonMatchingMajor, "M", "non-matching (major)", true),
        (Status::NotDecompiled, "U", "not decompiled", false),
        (Status::Wip, "W", "WIP", true),
        (Status::Library, "L", "library function", false),
    ];
    for (status, code, description, decompiled) in all {
        assert_eq!(status.code(), code);
        assert_eq!(status.description(), description);
        assert_eq!(Status::from_code(code.chars().next().unwrap()), Some(status));
        assert_eq!(info(0, 0, "x", status).is_decompiled(), decompiled);
    }
    assert_eq!(Status::from_code('x'), None);
}

#[test]
fn fuzzy_resolution_example() {
    let entries = vec![
        info(0x10, 4, "bar", Status::Matching),
        info(0x20, 4, "_Z3fooi", Status::Matching),
        info(0x30, 4, "", Status::NotDecompiled),
    ];
    let exact = find_function_fuzzy(&entries, "_Z3fooi").unwrap();
    assert_eq!(exact.addr, 0x20);
    let fuzzy = find_function_fuzzy(&entries, "foo").unwrap();
    assert_eq!(fuzzy.addr, 0x20);
    assert!(find_function_fuzzy(&entries, "doesNotExist").is_none());
    assert_eq!(find_function_fuzzy(&entries, "bar").unwrap().addr, 0x10);
}

#[test]
fn empty_query_skips_names_that_do_not_demangle() {
    let entries = vec![
        info(0x10, 4, "bar", Status::Matching),
        info(0x20, 4, "_Zinvalid", Status::Matching),
        info(0x30, 4, "", Status::NotDecompiled),
    ];
    assert!(find_function_fuzzy(&entries[..2], "").is_none());
    assert_eq!(find_function_fuzzy(&entries, "").unwrap().addr, 0x30);
    let mangled = vec![
        info(0x10, 4, "bar", Status::Matching),
        info(0x40, 4, "_Z3fooi", Status::Matching),
    ];
    assert_eq!(find_function_fuzzy(&mangled, "").unwrap().addr, 0x40);
    let none: Vec<Info> = Vec::new();
    assert!(find_function_fuzzy(&none, "").is_none());
}

#[test]
fn exact_match_wins_over_fuzzy() {
    let entries = vec![
        info(0x10, 4, "_Z3fooi", Status::Matching),
        info(0x20, 4, "foo", Status::Matching),
    ];
    assert_eq!(find_function_fuzzy(&entries, "foo").unwrap().addr, 0x20);
}

#[test]
fn fuzzy_accepts_any_qualifying_entry() {
    let entries = vec![
        info(0x10, 4, "_Z3fooi", Status::Matching),
        info(0x20, 4, "_Z3foov", Status::Matching),
        info(0x30, 4, "foo_not_mangled", Status::Matching),
    ];
    let found = find_function_fuzzy(&entries, "foo(").unwrap();
    assert!(found.addr == 0x10 || found.addr == 0x20);
}

#[test]
fn demangling() {
    assert_eq!(demangle_str("_Z3fooi").unwrap(), "foo(int)");
    assert_eq!(demangle_str("_ZN5space3fooEibc").unwrap(), "space::foo(int, bool, char)");
    assert_eq!(demangle_str("foo"), Err(DemangleError::NotMangled));
    assert_eq!(demangle_str("_Z"), Err(DemangleError::Invalid));
}

#[test]
fn known_function_map() {
    let entries = vec![
        info(0x10, 4, "foo", Status::Matching),
        info(0x20, 4, "", Status::NotDecompiled),
        info(0x30, 4, "bar", Status::Library),
    ];
    let map = make_known_function_map(&entries);
    assert_eq!(map.len(), 2);
    assert_eq!(map[&0x10].name, "foo");
    assert_eq!(map[&0x30].name, "bar");
    assert!(!map.contains_key(&0x20));
}
