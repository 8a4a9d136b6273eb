use null_delimited::filecreator::single_iteration_data;
use null_delimited::filecreator::RUNS;
use null_delimited::nomstreaming::tokenize_chunks;

#[test]
fn block_is_the_fifteen_runs() {
    let mut expected: Vec<u8> = Vec::new();
    for i in 1u8..0x10 {
        expected.extend(0u8..=i);
        if i % 2 == 0 {
            expected.push(0);
        }
    }
    assert_eq!(RUNS, 15);
    assert_eq!(single_iteration_data(), expected);
}

#[test]
fn block_has_its_length_and_ends() {
    let data = single_iteration_data();
    assert_eq!(data.len(), 142);
    assert_eq!(&data[..5], &[0, 1, 0, 1, 2]);
    assert_eq!(&data[5..10], &[0, 0, 1, 2, 3]);
    assert_eq!(data[141], 15);
}

#[test]
fn block_tokens() {
    let data = single_iteration_data();
    let tokens = tokenize_chunks(&vec![data]);
    assert_eq!(tokens.len(), 23);
    assert_eq!(tokens[0], Vec::<u8>::new());
    assert_eq!(tokens[1], vec![1]);
    assert_eq!(tokens[2], vec![1, 2]);
    assert_eq!(tokens[3], Vec::<u8>::new());
    assert_eq!(tokens[4], vec![1, 2, 3]);
    assert_eq!(tokens[5], vec![1, 2, 3, 4]);
    assert_eq!(tokens[6], Vec::<u8>::new());
    assert_eq!(tokens[22], (1u8..=15).collect::<Vec<u8>>());
}
