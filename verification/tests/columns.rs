use xorbreak::transpose::{interleave, transpose};

#[test]
fn transpose_takes_every_kth_byte() {
    let columns = transpose(&[0, 1, 2, 3, 4, 5, 6, 7, 8, 9], &3);
    assert_eq!(columns, vec![vec![0, 3, 6, 9], vec![1, 4, 7], vec![2, 5, 8]]);
}

#[test]
fn transpose_columns_of_unequal_length() {
    let columns = transpose(b"abcde", &3);
    assert_eq!(columns, vec![b"ad".to_vec(), b"be".to_vec(), b"c".to_vec()]);
}

#[test]
fn transpose_with_more_columns_than_bytes() {
    let columns = transpose(b"ab", &4);
    assert_eq!(columns, vec![b"a".to_vec(), b"b".to_vec(), vec![], vec![]]);
}

#[test]
fn transpose_with_one_column() {
    assert_eq!(transpose(b"abc", &1), vec![b"abc".to_vec()]);
}

#[test]
fn transpose_without_columns() {
    assert_eq!(transpose(b"abc", &0), Vec::<Vec<u8>>::new());
}

#[test]
fn transpose_of_an_empty_message() {
    assert_eq!(transpose(b"", &2), vec![Vec::<u8>::new(), Vec::<u8>::new()]);
}

#[test]
fn transpose_puts_every_byte_in_one_column() {
    let message: Vec<u8> = (0..=255u8).collect();
    for k in 1..=40u8 {
        let columns = transpose(&message, &k);
        assert_eq!(columns.len(), usize::from(k));
        let total: usize = columns.iter().map(|c| c.len()).sum();
        assert_eq!(total, message.len());
        for (i, column) in columns.iter().enumerate() {
            let longer = if i < message.len() % usize::from(k) { 1 } else { 0 };
            assert_eq!(column.len(), message.len() / usize::from(k) + longer);
            for (row, byte) in column.iter().enumerate() {
                assert_eq!(*byte, message[i + row * usize::from(k)]);
            }
        }
    }
}

#[test]
fn interleave_undoes_transpose() {
    let message = b"Burning 'em, if you ain't quick and nimble\nI go crazy when I hear a cymbal";
    for k in 1..=80u8 {
        assert_eq!(interleave(&transpose(message, &k)), message.to_vec());
    }
    assert_eq!(interleave(&transpose(b"", &5)), Vec::<u8>::new());
    assert_eq!(interleave(&transpose(message, &255)), message.to_vec());
}

#[test]
fn interleave_stops_at_the_first_missing_byte() {
    assert_eq!(interleave(&vec![b"ad".to_vec(), b"b".to_vec(), b"cf".to_vec()]), b"abcd".to_vec());
    assert_eq!(interleave(&vec![vec![], b"b".to_vec()]), Vec::<u8>::new());
    assert_eq!(interleave(&vec![]), Vec::<u8>::new());
}
