use pake::win_table::{counts_from_probabilities, parse_win_table, win_table_text};

#[test]
fn a_table_reads_back() {
    let probabilities: Vec<u8> = vec![0, 7, 10, 99, 100, 128, 255];
    let text = win_table_text(&probabilities);
    assert_eq!(text, b"[0,7,10,99,100,128,255,]".to_vec());
    assert_eq!(parse_win_table(&text), Some(probabilities.clone()));

    let mut file = b"// Seed used was: [1, 2]. Used 22100/22100 flops\n".to_vec();
    file.extend_from_slice(&text);
    file.push(b'\n');
    assert_eq!(parse_win_table(&file), Some(probabilities));
}

#[test]
fn empty_and_commented_tables() {
    assert_eq!(parse_win_table(b"[]"), Some(vec![]));
    assert_eq!(parse_win_table(b"//\n// two\n[1,]\n"), Some(vec![1]));
}

#[test]
fn malformed_tables_are_refused() {
    assert_eq!(parse_win_table(b""), None);
    assert_eq!(parse_win_table(b"[1,2"), None);
    assert_eq!(parse_win_table(b"[1,2]"), None);
    assert_eq!(parse_win_table(b"[05,]"), None);
    assert_eq!(parse_win_table(b"[256,]"), None);
    assert_eq!(parse_win_table(b"[1000,]"), None);
    assert_eq!(parse_win_table(b"[1,]\n\n"), None);
    assert_eq!(parse_win_table(b"[ 1,]"), None);
    assert_eq!(parse_win_table(b"/ comment\n[1,]"), None);
    assert_eq!(parse_win_table(b"// no newline[1,]"), None);
}

#[test]
fn counts_stand_for_probabilities() {
    let mut table = [0u8; 1326];
    table[0] = 128;
    table[1325] = 255;
    let counts = counts_from_probabilities(&table);
    assert_eq!(counts[0].win_count, 128);
    assert_eq!(counts[0].total, 256);
    assert_eq!(counts[1].win_count, 0);
    assert_eq!(counts[1325].win_count, 255);
    assert!(counts.iter().all(|count| count.total == 256));
    assert_eq!(counts[0].probability(), 128);
}
