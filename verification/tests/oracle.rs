use null_delimited::nomcomplete;
use null_delimited::nomstreaming;
use null_delimited::nomstreaming::Scan;

/// The streaming step written with parser combinators.
fn streaming_by_combinators(input: &[u8]) -> nom::IResult<&[u8], Vec<u8>> {
    let (rest, token) =
        nom::bytes::streaming::take_till::<_, _, nom::error::Error<_>>(|b| b == 0x00)(input)?;
    let least = if token.len() == 0 { 1 } else { 0 };
    let (rest, _) = nom::bytes::streaming::take_while_m_n(least, 1, |b| b == 0x00)(rest)?;
    Ok((rest, token.to_vec()))
}

/// The step on complete input written with parser combinators.
fn complete_by_combinators(input: &[u8]) -> nom::IResult<&[u8], Vec<u8>> {
    let (rest, token) =
        nom::bytes::complete::take_till::<_, _, nom::error::Error<_>>(|b| b == 0x00)(input)?;
    let least = if token.len() == 0 { 1 } else { 0 };
    let (rest, _) = nom::bytes::complete::take_while_m_n(least, 1, |b| b == 0x00)(rest)?;
    Ok((rest, token.to_vec()))
}

fn streams_up_to(length: usize) -> Vec<Vec<u8>> {
    let alphabet = [0u8, 1, 255];
    let mut streams: Vec<Vec<u8>> = vec![vec![]];
    let mut start = 0;
    for _ in 0..length {
        let end = streams.len();
        for i in start..end {
            for b in alphabet {
                let mut longer = streams[i].clone();
                longer.push(b);
                streams.push(longer);
            }
        }
        start = end;
    }
    streams
}

#[test]
fn streaming_step_agrees_with_combinators() {
    for stream in streams_up_to(7) {
        let ours = nomstreaming::parse_until_null_byte(&stream);
        match streaming_by_combinators(&stream) {
            Ok((rest, token)) => {
                assert_eq!(ours, Scan::Resolved(token, stream.len() - rest.len()));
            }
            Err(nom::Err::Incomplete(_)) => assert_eq!(ours, Scan::Incomplete),
            Err(other) => panic!("{:?}", other),
        }
    }
}

#[test]
fn complete_step_agrees_with_combinators() {
    for stream in streams_up_to(7) {
        let ours = nomcomplete::parse_until_null_byte(&stream);
        match complete_by_combinators(&stream) {
            Ok((rest, token)) => assert_eq!(ours, Some((rest, token))),
            Err(_) => {
                assert!(stream.is_empty());
                assert_eq!(ours, None);
            }
        }
    }
}
