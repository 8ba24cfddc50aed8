use fromfix::memory::{
    find_all, module_timestamp, parse_pattern, pattern_scan, read_u32_le, read_u64_le, scan,
    size_of_image, wait_step, WaitStep, WAIT_STEP_MS, WAIT_TIMEOUT_MS,
};

#[test]
fn parse_pattern_bytes_and_wildcards() {
    assert_eq!(
        parse_pattern("85 ?? 74 ?? ??"),
        vec![Some(0x85), None, Some(0x74), None, None]
    );
}

#[test]
fn parse_pattern_splits_on_any_whitespace() {
    assert_eq!(parse_pattern("  0f\tFF\n a0  "), vec![Some(0x0F), Some(0xFF), Some(0xA0)]);
    assert_eq!(parse_pattern(""), Vec::<Option<u8>>::new());
    assert_eq!(parse_pattern("   "), Vec::<Option<u8>>::new());
}

#[test]
fn parse_pattern_follows_from_str_radix() {
    // "+1F" parses; "-1" (unsigned), "100" (too big), "ZZ" and "+" do not;
    // a token with a '?' anywhere is a wildcard; leading zeros are fine.
    assert_eq!(
        parse_pattern("+1F -1 100 ZZ + 0? 000F"),
        vec![Some(0x1F), None, None, None, None, None, Some(0x0F)]
    );
}

#[test]
fn pattern_scan_finds_first_match() {
    let image = [0x85u8, 0x00, 0x01, 0x85, 0x09, 0x74, 0x85, 0x01, 0x74];
    assert_eq!(pattern_scan(&image, "85 ?? 74"), Some(3));
    assert_eq!(pattern_scan(&image, "85 01 74"), Some(6));
    assert_eq!(pattern_scan(&image, "74 85 01 74"), Some(5));
    assert_eq!(pattern_scan(&image, "99"), None);
    assert_eq!(pattern_scan(&image, ""), None);
    assert_eq!(pattern_scan(&image, "?? ?? ?? ?? ?? ?? ?? ?? ?? ??"), None);
    assert_eq!(pattern_scan(&image, "?? ?? ?? ?? ?? ?? ?? ?? ??"), Some(0));
}

#[test]
fn scan_at_the_very_end() {
    let data = [1u8, 2, 3, 4];
    assert_eq!(scan(&data, &[Some(3), Some(4)]), Some(2));
    assert_eq!(scan(&data, &[Some(4), None]), None);
}

#[test]
fn find_all_reports_every_occurrence() {
    let entry = [0x80u8, 0x07, 0x00, 0x00, 0x38, 0x04];
    let mut image = vec![0xCCu8; 3];
    image.extend_from_slice(&entry);
    image.extend_from_slice(&entry);
    image.push(0);
    image.extend_from_slice(&entry);
    assert_eq!(find_all(&image, &entry), vec![3, 9, 16]);
    assert_eq!(find_all(&[1u8, 1, 1, 1, 1], &[1, 1]), vec![0, 1, 2, 3]);
    assert_eq!(find_all(&[1u8, 2, 1, 2, 1], &[1, 2, 1]), vec![0, 2]);
    assert_eq!(find_all(&[1u8, 2], &[]), Vec::<usize>::new());
    assert_eq!(find_all(&[1u8], &[1, 1]), Vec::<usize>::new());
}

fn header(e_lfanew: u32, len: usize) -> Vec<u8> {
    let mut h = vec![0u8; len];
    h[0x3C..0x40].copy_from_slice(&e_lfanew.to_le_bytes());
    h
}

#[test]
fn size_of_image_reads_optional_header() {
    let mut h = header(0x80, 0x100);
    h[0xD0..0xD4].copy_from_slice(&0x0123_4000u32.to_le_bytes());
    h[0x88..0x8C].copy_from_slice(&0x5C8A_1B2Fu32.to_le_bytes());
    assert_eq!(size_of_image(&h), Some(0x0123_4000));
    assert_eq!(module_timestamp(&h), Some(0x5C8A_1B2F));
}

#[test]
fn size_of_image_rejects_bad_headers() {
    // A negative e_lfanew.
    assert_eq!(size_of_image(&header(0x8000_0000, 0x100)), None);
    // Too short to hold e_lfanew.
    assert_eq!(size_of_image(&[0u8; 0x3F]), None);
    // The field lies past the end.
    assert_eq!(size_of_image(&header(0xB0, 0x100)), None);
    assert_eq!(module_timestamp(&header(0xF8, 0x100)), None);
    assert_eq!(module_timestamp(&header(0xF4, 0x100)), Some(0));
}

#[test]
fn little_endian_reads() {
    let b = [0x50u8, 0x60, 0x12, 0x34, 0xF4, 0x7F, 0x00, 0x00, 0xAA];
    assert_eq!(read_u32_le(&b, 0), 0x3412_6050);
    assert_eq!(read_u64_le(&b, 0), 0x0000_7FF4_3412_6050);
    assert_eq!(read_u64_le(&b, 1), 0xAA00_007F_F434_1260);
}

#[test]
fn wait_step_decisions() {
    assert_eq!(wait_step(0, true), WaitStep::Ready);
    assert_eq!(wait_step(WAIT_TIMEOUT_MS, true), WaitStep::Ready);
    assert_eq!(wait_step(0, false), WaitStep::Sleep { waited: 250 });
    assert_eq!(wait_step(59_750, false), WaitStep::Sleep { waited: 60_000 });
    assert_eq!(wait_step(60_000, false), WaitStep::TimedOut);
}

#[test]
fn wait_gives_up_after_the_timeout() {
    // Polling from zero with no signature sleeps 240 times, then times out.
    let mut waited = 0u32;
    let mut sleeps = 0u32;
    loop {
        match wait_step(waited, false) {
            WaitStep::Sleep { waited: w } => {
                assert!(w <= WAIT_TIMEOUT_MS);
                assert_eq!(w, waited + WAIT_STEP_MS);
                waited = w;
                sleeps += 1;
            }
            WaitStep::TimedOut => break,
            WaitStep::Ready => unreachable!(),
        }
    }
    assert_eq!(sleeps, 240);
    assert_eq!(waited, 60_000);
}
