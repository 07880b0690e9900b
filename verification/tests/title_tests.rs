use panes::title::{decimal_string, tab_title};

#[test]
fn first_tab_is_terminal_one() {
    assert_eq!(tab_title(0), "Terminal 1");
}

#[test]
fn titles_count_from_one() {
    assert_eq!(tab_title(8), "Terminal 9");
    assert_eq!(tab_title(9), "Terminal 10");
    assert_eq!(tab_title(99), "Terminal 100");
}

#[test]
fn decimal_string_matches_std_formatting() {
    for n in [0usize, 1, 9, 10, 11, 99, 100, 12345, 1000000, usize::MAX] {
        assert_eq!(decimal_string(n), n.to_string());
    }
}

#[test]
fn titles_of_different_positions_differ() {
    let titles: Vec<String> = (0..200).map(tab_title).collect();
    for i in 0..titles.len() {
        for j in (i + 1)..titles.len() {
            assert_ne!(titles[i], titles[j]);
        }
    }
}

#[test]
fn decimal_string_reads_back() {
    for n in [0usize, 7, 10, 305, 99999] {
        assert_eq!(decimal_string(n).parse::<usize>().unwrap(), n);
    }
}
