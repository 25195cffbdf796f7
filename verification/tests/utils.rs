use sysinfo_reader::utils::{parse_key_from_text, parse_online_cpus, RingStatsBuffer};

#[test]
fn test_parse_online_cpus() {
    assert_eq!(parse_online_cpus("0-4,6-7"), vec![0, 1, 2, 3, 4, 6, 7]);
}

#[test]
fn online_cpus_single_numbers_and_ranges() {
    assert_eq!(parse_online_cpus("3"), vec![3]);
    assert_eq!(parse_online_cpus("0,2,4"), vec![0, 2, 4]);
    assert_eq!(parse_online_cpus("5-5"), vec![5]);
    assert_eq!(parse_online_cpus("7-3"), Vec::<u32>::new());
    assert_eq!(parse_online_cpus(""), Vec::<u32>::new());
    assert_eq!(parse_online_cpus("+2-+4"), vec![2, 3, 4]);
}

#[test]
fn online_cpus_passes_over_what_is_no_entry() {
    assert_eq!(parse_online_cpus("a,1,b-2,3-c,4"), vec![1, 4]);
    assert_eq!(parse_online_cpus("1-2-3,8"), vec![8]);
    assert_eq!(parse_online_cpus(",,9,"), vec![9]);
    assert_eq!(parse_online_cpus("-5,6"), vec![6]);
    assert_eq!(parse_online_cpus(" 1,2"), vec![2]);
    assert_eq!(parse_online_cpus("4294967296,1"), vec![1]);
    assert_eq!(parse_online_cpus("0-1\n"), vec![]);
}

#[test]
fn online_cpus_range_up_to_the_largest_number() {
    assert_eq!(parse_online_cpus("4294967294-4294967295"), vec![4294967294, 4294967295]);
}

#[test]
fn key_from_text_reads_between_key_and_end() {
    let text = "MemTotal:       16316412 kB\nMemFree:         5238160 kB\n";
    let trim: &[char] = &['\n', ' ', ':', 'k', 'B'];
    assert_eq!(
        parse_key_from_text(text, "MemTotal", "\n", Some(trim)),
        Some("16316412".to_string())
    );
    assert_eq!(
        parse_key_from_text(text, "MemFree", "\n", Some(trim)),
        Some("5238160".to_string())
    );
    assert_eq!(
        parse_key_from_text(text, "MemFree", "\n", None),
        Some(":         5238160 kB".to_string())
    );
    assert_eq!(parse_key_from_text(text, "SwapFree", "\n", Some(trim)), None);
    assert_eq!(parse_key_from_text("MemTotal: 5 kB", "MemTotal", "\n", Some(trim)), None);
}

#[test]
fn key_from_text_edge_cases() {
    assert_eq!(parse_key_from_text("abc", "", "c", None), Some("ab".to_string()));
    assert_eq!(parse_key_from_text("abc", "a", "", None), Some("".to_string()));
    assert_eq!(parse_key_from_text("", "", "", None), Some("".to_string()));
    assert_eq!(parse_key_from_text("key=kkk;", "key=", ";", Some(&['k'])), Some("".to_string()));
    assert_eq!(parse_key_from_text("aXbXc", "X", "X", None), Some("b".to_string()));
    assert_eq!(
        parse_key_from_text("größe: zwölf\n", "größe", "\n", Some(&[':', ' '])),
        Some("zwölf".to_string())
    );
}

#[test]
fn running_buffer_keeps_mean_and_extrema() {
    let mut buffer: RingStatsBuffer<u32> = RingStatsBuffer::new(3);
    assert_eq!(buffer.len(), 0);
    assert_eq!(buffer.max, 0);
    assert_eq!(buffer.min, u32::MAX);
    assert_eq!(buffer.get_avg(), 0);
    assert_eq!(buffer.get_last(), None);
    buffer.push_back(4);
    assert_eq!(buffer.get_avg(), 4);
    buffer.push_back(9);
    assert_eq!(buffer.get_avg(), 6);
    buffer.push_back(2);
    assert_eq!(buffer.get_avg(), 5);
    buffer.push_back(10);
    assert_eq!(buffer.len(), 3);
    assert_eq!(buffer.get_avg(), 7);
    assert_eq!(buffer.max, 10);
    assert_eq!(buffer.min, 2);
    assert_eq!(buffer.get_max(), 10);
    assert_eq!(buffer.get_min(), 2);
    assert_eq!(buffer.get_last(), Some(10));
    assert_eq!(buffer.iter().copied().collect::<Vec<u32>>(), vec![9, 2, 10]);
    assert_eq!(buffer.pop_front(), Some(9));
    assert_eq!(buffer.get_avg(), 7);
    buffer.calc_avg();
    assert_eq!(buffer.get_avg(), 6);
    let (front, back) = buffer.as_slices();
    assert_eq!(front.len() + back.len(), 2);
}

#[test]
fn running_buffer_of_capacity_zero_holds_nothing() {
    let mut buffer: RingStatsBuffer<u64> = RingStatsBuffer::new(0);
    buffer.push_back(3);
    assert_eq!(buffer.len(), 0);
    assert_eq!(buffer.get_avg(), 0);
    assert_eq!(buffer.max, 3);
    assert_eq!(buffer.min, 3);
}

#[test]
fn running_buffer_of_the_largest_capacity_is_no_trouble() {
    let mut buffer: RingStatsBuffer<u64> = RingStatsBuffer::new(usize::MAX);
    buffer.push_back(1);
    buffer.push_back(4);
    assert_eq!(buffer.len(), 2);
    assert_eq!(buffer.get_avg(), 2);
}
