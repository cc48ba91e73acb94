use git_productivity_analyzer::hours::{is_whitespace, parse_numbers, parse_summary};

#[test]
fn white_space_is_what_the_standard_library_says() {
    for code in 0..=0x10ffffu32 {
        if let Some(c) = char::from_u32(code) {
            assert_eq!(is_whitespace(c), c.is_whitespace(), "U+{:04X}", code);
        }
    }
}

#[test]
fn parse_numbers_reads_a_slash_list() {
    assert_eq!(parse_numbers::<4>("1/2/3/4"), Some([1, 2, 3, 4]));
    assert_eq!(parse_numbers::<3>(" 10 / 20 files /30"), Some([10, 20, 30]));
    assert_eq!(parse_numbers::<3>("1/2"), None);
    assert_eq!(parse_numbers::<3>("1/2/3/4"), None);
    assert_eq!(parse_numbers::<2>("1/x/3"), Some([1, 3]));
    assert_eq!(parse_numbers::<2>("1//3"), Some([1, 3]));
    assert_eq!(parse_numbers::<1>("+7"), Some([7]));
    assert_eq!(parse_numbers::<1>("-7"), None);
    assert_eq!(parse_numbers::<1>("4294967295"), Some([u32::MAX]));
    assert_eq!(parse_numbers::<1>("4294967296"), None);
    assert_eq!(parse_numbers::<1>("0007"), Some([7]));
    assert_eq!(parse_numbers::<1>("7 8"), Some([7]));
    assert_eq!(parse_numbers::<1>("+"), None);
    assert_eq!(parse_numbers::<0>(""), Some([]));
    assert_eq!(parse_numbers::<0>("a/b"), Some([]));
    assert_eq!(parse_numbers::<1>("1٢"), None);
    assert_eq!(parse_numbers::<2>("é 1/\u{2003}2"), None);
    assert_eq!(parse_numbers::<1>("é 1/\u{2003}2"), Some([2]));
}

fn reference_numbers(v: &str) -> Vec<u32> {
    v.split('/').filter_map(|p| p.split_whitespace().next()).filter_map(|p| p.parse().ok()).collect()
}

#[test]
fn parse_numbers_agrees_with_the_standard_library() {
    for v in ["", "/", "1", "1/", "/1", " 1 / 2 ", "a1/1a/+1/1+", "99999999999/3", "1\t/\u{3000}2\u{a0}x/3"] {
        let expect = reference_numbers(v);
        match expect.len() {
            0 => assert_eq!(parse_numbers::<0>(v), Some([])),
            1 => assert_eq!(parse_numbers::<1>(v).map(|a| a.to_vec()), Some(expect)),
            2 => assert_eq!(parse_numbers::<2>(v).map(|a| a.to_vec()), Some(expect)),
            3 => assert_eq!(parse_numbers::<3>(v).map(|a| a.to_vec()), Some(expect)),
            _ => unreachable!(),
        }
        assert_eq!(parse_numbers::<7>(v), None);
    }
}

#[test]
fn parse_summary_reads_the_known_lines() {
    let text = "Alice <a@x>\n\
        total hours: 12.50\n\
        total 8h days: 1.56\r\n\
        total commits = 3 (shallow)\n\
        total authors: 2\n\
        total files added/removed/modified/remaining: 3/1/2/2\n\
        total lines added/removed/remaining: 10/4/6\n";
    let s = parse_summary(text);
    assert_eq!(s.total_hours, "12.50");
    assert_eq!(s.total_8h_days, "1.56");
    assert_eq!(s.total_commits, 3);
    assert_eq!(s.total_authors, 2);
    assert_eq!(s.total_files, Some([3, 1, 2, 2]));
    assert_eq!(s.total_lines, Some([10, 4, 6]));
}

#[test]
fn parse_summary_passes_over_other_lines() {
    let s = parse_summary("");
    assert_eq!(s.total_hours, "");
    assert_eq!(s.total_commits, 0);
    assert_eq!(s.total_files, None);
    let s = parse_summary("nothing\n total hours: 3\ntotal commits = x\ntotal authors:  7 \ntotal files added/removed/modified/remaining: 1/2/3");
    assert_eq!(s.total_hours, "");
    assert_eq!(s.total_commits, 0);
    assert_eq!(s.total_authors, 7);
    assert_eq!(s.total_files, None);
    assert_eq!(parse_summary("total commits = 3, of which 1 is a merge").total_commits, 0);
    let s = parse_summary("total authors: \u{a0}7 \r\ntotal hours:   4.2  \ntotal commits =   9");
    assert_eq!(s.total_authors, 7);
    assert_eq!(s.total_hours, "4.2");
    assert_eq!(s.total_commits, 9);
    // the last line of a kind wins, and a bare carriage return belongs to the line
    let s = parse_summary("total commits = 1\ntotal commits = 2\rtotal commits = 3");
    assert_eq!(s.total_commits, 2);
}
