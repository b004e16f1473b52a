use conway::bits::{bit_at, ones_between};

fn count_slowly(bytes: &[u8], start: usize, end: usize) -> usize {
    (start..end).filter(|&i| bit_at(bytes, i)).count()
}

#[test]
fn bits_are_read_most_significant_first() {
    let bytes = [0b1000_0001, 0b0100_0000];
    assert!(bit_at(&bytes, 0));
    assert!(!bit_at(&bytes, 1));
    assert!(bit_at(&bytes, 7));
    assert!(bit_at(&bytes, 9));
    assert!(!bit_at(&bytes, 16));
    assert!(!bit_at(&bytes, 1000));
}

#[test]
fn whole_bytes_are_counted_at_once() {
    let bytes = [0xff, 0x0f, 0xa5, 0x00, 0x81];
    assert_eq!(ones_between(&bytes, 0, 8), 8);
    assert_eq!(ones_between(&bytes, 8, 16), 4);
    assert_eq!(ones_between(&bytes, 0, 40), 8 + 4 + 4 + 0 + 2);
}

#[test]
fn ranges_count_the_same_however_they_are_cut() {
    let bytes: Vec<u8> = (0..40).map(|i| (i * 37 + 11) as u8).collect();
    for start in [0, 1, 3, 8, 13, 64] {
        for end in [0, 2, 8, 9, 31, 64, 100, 320, 400] {
            assert_eq!(
                ones_between(&bytes, start, end),
                count_slowly(&bytes, start, end),
                "{start}..{end}"
            );
        }
    }
}
