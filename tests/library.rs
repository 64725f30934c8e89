use memgrep::{
    check_read_len, find_first, format_address_range, match_positions, ok_but_complain,
    parse_address_range, parse_hex_u64, plan_line, plan_region, region_read_size, resolve_pattern,
    split_address_range, str_eq, GrepError, LineStep, MapsError, MapsPath, MapsRecord,
    PatternError,
};

fn record(lower: u64, upper: u64, perms: &str, inode: u64) -> MapsRecord {
    MapsRecord {
        address_lower: lower,
        address_upper: upper,
        perms: perms.to_string(),
        offset: 0,
        dev: "00:00".to_string(),
        inode,
        path: MapsPath::Anonymous,
    }
}

#[test]
fn parses_full_record() {
    let r = MapsRecord::try_from_line("00400000-00401000 r-xp 00001000 08:01 1a2b /bin/cat").unwrap();
    assert_eq!(r.address_lower, 0x400000);
    assert_eq!(r.address_upper, 0x401000);
    assert_eq!(r.perms, "r-xp");
    assert_eq!(r.offset, 0x1000);
    assert_eq!(r.dev, "08:01");
    assert_eq!(r.inode, 0x1a2b);
    assert!(matches!(r.path, MapsPath::File(ref p) if p == "/bin/cat"));
}

#[test]
fn pathname_keeps_remaining_tokens() {
    let r = MapsRecord::try_from_line("1000-2000 rw-p 0 00:00 5   /tmp/my file (deleted)").unwrap();
    assert!(matches!(r.path, MapsPath::File(ref p) if p == "/tmp/my file (deleted)"));
}

#[test]
fn pseudo_paths_are_classified() {
    let cases = [
        ("[stack]", "Stack"),
        ("[heap]", "Heap"),
        ("[vdso]", "VDSO"),
        ("[vvar]", "VVar"),
        ("[vsyscall]", "VSyscall"),
    ];
    for (p, name) in cases {
        let line = format!("1000-2000 rw-p 0 00:00 0 {p}");
        let r = MapsRecord::try_from_line(&line).unwrap();
        assert_eq!(format!("{:?}", r.path), name);
    }
    let r = MapsRecord::try_from_line("1000-2000 rw-p 0 00:00 0").unwrap();
    assert!(matches!(r.path, MapsPath::Anonymous));
    assert!(matches!(MapsPath::from(Some("[stack]x")), MapsPath::File(ref p) if p == "[stack]x"));
    assert!(matches!(MapsPath::from(None), MapsPath::Anonymous));
}

#[test]
fn tabs_and_repeated_spaces_separate_fields() {
    let r = MapsRecord::try_from_line("  a000-b000\trw-p  0\t00:00   0  ").unwrap();
    assert_eq!(r.address_lower, 0xa000);
    assert_eq!(r.address_upper, 0xb000);
    assert!(matches!(r.path, MapsPath::Anonymous));
}

#[test]
fn missing_fields_are_named() {
    let cases = [
        ("", "address_space"),
        ("1000-2000", "perms"),
        ("1000-2000 rw-p", "offset"),
        ("1000-2000 rw-p 0", "dev"),
        ("1000-2000 rw-p 0 00:00", "inode"),
    ];
    for (line, name) in cases {
        match MapsRecord::try_from_line(line) {
            Err(MapsError::MissingField(f)) => assert_eq!(f, name),
            other => panic!("unexpected {other:?}"),
        }
    }
}

#[test]
fn range_without_separator_is_an_error() {
    assert!(matches!(
        MapsRecord::try_from_line("10002000 rw-p 0 00:00 0"),
        Err(MapsError::AddressSpaceParseError)
    ));
    // the separator is checked before the other fields are looked for
    assert!(matches!(MapsRecord::try_from_line("10002000"), Err(MapsError::AddressSpaceParseError)));
}

#[test]
fn bad_numbers_are_named() {
    let cases = [
        ("10g0-2000 rw-p 0 00:00 0", "address_lower"),
        ("1000-2000x rw-p 0 00:00 0", "address_upper"),
        ("1000-2000 rw-p zz 00:00 0", "offset"),
        ("1000-2000 rw-p 0 00:00 -1", "inode"),
        ("1000- rw-p 0 00:00 0", "address_upper"),
        ("1000-2000 rw-p 0 00:00 10000000000000000", "inode"),
    ];
    for (line, name) in cases {
        match MapsRecord::try_from_line(line) {
            Err(MapsError::ParsingError(f)) => assert_eq!(f, name),
            other => panic!("unexpected {other:?} for {line}"),
        }
    }
}

#[test]
fn hex_numbers() {
    assert_eq!(parse_hex_u64("0"), Some(0));
    assert_eq!(parse_hex_u64("fF"), Some(255));
    assert_eq!(parse_hex_u64("+10"), Some(16));
    assert_eq!(parse_hex_u64("ffffffffffffffff"), Some(u64::MAX));
    assert_eq!(parse_hex_u64("00000000000000000001"), Some(1));
    assert_eq!(parse_hex_u64("10000000000000000"), None);
    assert_eq!(parse_hex_u64(""), None);
    assert_eq!(parse_hex_u64("+"), None);
    assert_eq!(parse_hex_u64("-1"), None);
    assert_eq!(parse_hex_u64("1 "), None);
}

#[test]
fn address_range_round_trip() {
    for (lo, up) in [(0u64, 1u64), (0x400000, 0x401000), (0x7ffee000, 0x7fff0000), (u64::MAX - 1, u64::MAX)] {
        let text = format_address_range(lo, up);
        assert_eq!(parse_address_range(&text).unwrap(), (lo, up));
        assert_eq!(format_address_range(lo, up), text);
    }
    assert_eq!(format_address_range(0x400000, 0x401000), "00400000-00401000");
    assert_eq!(format_address_range(0x7ffee000, 0x7fff0000), "7ffee000-7fff0000");
    assert_eq!(format_address_range(0xab, 0x123456789), "000000ab-123456789");
    let (lo, up) = parse_address_range("00400000-00401000").unwrap();
    assert_eq!(format_address_range(lo, up), "00400000-00401000");
    assert!(matches!(parse_address_range("0040000000401000"), Err(MapsError::AddressSpaceParseError)));
    assert!(matches!(parse_address_range("x-1"), Err(MapsError::ParsingError(ref f)) if f == "address_lower"));
    assert_eq!(split_address_range("a-b-c"), Some(("a", "b-c")));
}

#[test]
fn string_equality() {
    assert!(str_eq("[heap]", "[heap]"));
    assert!(!str_eq("[heap]", "[heap"));
    assert!(!str_eq("abc", "abd"));
    assert!(str_eq("", ""));
}

#[test]
fn admission_over_all_permission_flags() {
    let flags = [('r', '-'), ('w', '-'), ('x', '-'), ('s', 'p')];
    for mask in 0..16u32 {
        let perms: String = flags
            .iter()
            .enumerate()
            .map(|(i, (on, off))| if mask & (1 << i) != 0 { *on } else { *off })
            .collect();
        let rw = mask & 3 == 3;
        assert_eq!(record(0x1000, 0x2000, &perms, 0).is_admitted(), rw, "{perms}");
        assert!(!record(0x1000, 0x2000, &perms, 1).is_admitted(), "{perms}");
    }
}

#[test]
fn upper_not_above_lower_is_a_bad_record() {
    for (lo, up) in [(0x2000u64, 0x1000u64), (0x1000, 0x1000), (u64::MAX, 0)] {
        assert!(matches!(region_read_size(&record(lo, up, "rw-p", 0), usize::MAX), Err(GrepError::BadAddressSpaceRecord)));
    }
}

#[test]
fn read_size_leaves_out_the_last_byte() {
    assert_eq!(region_read_size(&record(0x1000, 0x2000, "rw-p", 0), 1 << 30).unwrap(), 0xfff);
    assert_eq!(region_read_size(&record(0x1000, 0x1001, "rw-p", 0), 0).unwrap(), 0);
    assert_eq!(region_read_size(&record(0x1000, 0x2000, "rw-p", 0), 0xfff).unwrap(), 0xfff);
}

#[test]
fn oversized_region_is_refused_before_reading() {
    match region_read_size(&record(0x1000, 0x2000, "rw-p", 0), 0xffe) {
        Err(GrepError::MaxRegionSizeExceeded(s)) => assert_eq!(s, 0xfff),
        other => panic!("unexpected {other:?}"),
    }
    match plan_line("1000-2000 rw-p 0 00:00 0", 0xffe) {
        LineStep::Rejected(r, GrepError::MaxRegionSizeExceeded(s)) => {
            assert_eq!(s, 0xfff);
            assert_eq!(r.address_lower, 0x1000);
        }
        other => panic!("unexpected {other:?}"),
    }
}

#[test]
fn short_read_is_an_error() {
    assert!(check_read_len(10, 10).is_ok());
    match check_read_len(10, 4) {
        Err(GrepError::MemoryReadBytesMismatch { size, bytes_read }) => {
            assert_eq!((size, bytes_read), (10, 4));
        }
        other => panic!("unexpected {other:?}"),
    }
}

#[test]
fn find_first_reports_lowest_index() {
    assert_eq!(find_first(b"xxabcabc", b"abc"), Some(2));
    assert_eq!(find_first(b"abc", b"abc"), Some(0));
    assert_eq!(find_first(b"ab", b"abc"), None);
    assert_eq!(find_first(b"", b"a"), None);
    assert_eq!(find_first(b"aaab", b"ab"), Some(2));
}

#[test]
fn enumeration_of_non_overlapping_matches() {
    assert_eq!(match_positions(b"ABCxxABCxABC", b"ABC"), vec![0, 5, 9]);
    assert_eq!(match_positions(b"aaaa", b"aa"), vec![0, 2]);
    assert_eq!(match_positions(b"aaa", b"aa"), vec![0]);
    assert_eq!(match_positions(b"xyz", b"ab"), Vec::<usize>::new());
}

#[test]
fn erasing_leaves_no_match() {
    let mut buf = b"ABxABABAB".to_vec();
    let pat = b"AB";
    for k in match_positions(&buf, pat) {
        for b in &mut buf[k..k + pat.len()] {
            *b = b'-';
        }
    }
    assert_eq!(buf, b"--x------".to_vec());
    assert_eq!(find_first(&buf, pat), None);
}

#[test]
fn pattern_resolution() {
    assert_eq!(resolve_pattern("ABC", false).unwrap(), b"ABC".to_vec());
    assert_eq!(resolve_pattern("4142fF", true).unwrap(), vec![0x41, 0x42, 0xff]);
    assert_eq!(resolve_pattern("414", true), Err(PatternError::InvalidHex));
    assert_eq!(resolve_pattern("4g", true), Err(PatternError::InvalidHex));
    assert_eq!(resolve_pattern("", true), Err(PatternError::Empty));
    assert_eq!(resolve_pattern("", false), Err(PatternError::Empty));
}

#[test]
fn ok_but_complain_keeps_values() {
    assert_eq!(ok_but_complain::<u8, ()>(Ok(3)), Some(3));
    assert_eq!(ok_but_complain::<u8, &str>(Err("bad")), None);
}

#[test]
fn file_backed_region_is_not_admitted() {
    match plan_line("00400000-00401000 r-xp 00000000 08:01 123 /bin/cat", 1 << 30) {
        LineStep::NotAdmitted(r) => {
            assert_eq!(r.inode, 0x123);
            assert!(matches!(r.path, MapsPath::File(ref p) if p == "/bin/cat"));
        }
        other => panic!("unexpected {other:?}"),
    }
    // writable but file-backed
    assert!(matches!(plan_line("1000-2000 rw-p 0 08:01 7 /lib/x.so", 1 << 30), LineStep::NotAdmitted(_)));
}

fn scenario_region() -> (MapsRecord, usize) {
    match plan_line("7ffee000-7fff0000 rw-p 00000000 00:00 0", 1_073_741_824) {
        LineStep::Read { record, size } => (record, size),
        other => panic!("unexpected {other:?}"),
    }
}

#[test]
fn find_mode_reports_absolute_address() {
    let (record, size) = scenario_region();
    assert_eq!(size, 0x1fff);
    let mut buf = vec![0u8; size];
    buf[1..7].copy_from_slice(b"XYZABC");
    let plan = plan_region(&record, &buf, b"ABC", None);
    let m = plan.first.unwrap();
    assert_eq!(m.offset, 4);
    assert_eq!(m.address, 0x7ffee000 + 4);
    assert!(plan.writes.is_empty());
    assert!(plan_region(&record, &buf, b"QQ", None).first.is_none());
}

#[test]
fn erase_mode_overwrites_every_match() {
    let (record, size) = scenario_region();
    let mut buf = vec![0x11u8; size];
    buf[4..7].copy_from_slice(b"ABC");
    buf[20..23].copy_from_slice(b"ABC");
    let plan = plan_region(&record, &buf, b"ABC", Some(0x00));
    assert!(plan.first.is_none());
    let addrs: Vec<u64> = plan.writes.iter().map(|w| w.address).collect();
    assert_eq!(addrs, vec![0x7ffee000 + 4, 0x7ffee000 + 20]);
    for w in &plan.writes {
        assert_eq!(w.bytes, vec![0u8; 3]);
        let at = (w.address - record.address_lower) as usize;
        buf[at..at + w.bytes.len()].copy_from_slice(&w.bytes);
    }
    assert_eq!(&buf[4..7], &[0, 0, 0]);
    assert_eq!(&buf[20..23], &[0, 0, 0]);
    assert_eq!(find_first(&buf, b"ABC"), None);
}

#[test]
fn malformed_line_does_not_stop_the_scan() {
    let lines = [
        "7ffee000-7fff0000 rw-p 00000000 00:00",
        "7ffee000-7fff0000 rw-p 00000000 00:00 0 [stack]",
    ];
    let steps: Vec<LineStep> = lines.iter().map(|l| plan_line(l, 1 << 30)).collect();
    assert!(matches!(&steps[0], LineStep::Malformed(MapsError::MissingField(f)) if f == "inode"));
    match &steps[1] {
        LineStep::Read { record, size } => {
            assert_eq!(*size, 0x1fff);
            assert!(matches!(record.path, MapsPath::Stack));
        }
        other => panic!("unexpected {other:?}"),
    }
}
