use d26run::frame::{decode_header, encode_frame, end_of_stream, Header};
use d26run::pump::{forwarding_done, read_stream, Forwarding, Pump};

#[test]
fn header_holds_side_and_length() {
    assert_eq!(decode_header(0), Header::End);
    assert_eq!(decode_header(1), Header::Data { stderr: false, len: 1 });
    assert_eq!(decode_header(127), Header::Data { stderr: false, len: 127 });
    assert_eq!(decode_header(128), Header::Data { stderr: true, len: 0 });
    assert_eq!(decode_header(0x83), Header::Data { stderr: true, len: 3 });
    assert_eq!(decode_header(255), Header::Data { stderr: true, len: 127 });
    for b in 1..=255u8 {
        match decode_header(b) {
            Header::Data { stderr, len } => {
                assert_eq!(stderr, b & 0x80 != 0);
                assert_eq!(len, b & 0x7f);
            }
            Header::End => panic!("{b} ends the stream"),
        }
    }
}

#[test]
fn frame_is_header_then_payload() {
    assert_eq!(encode_frame(false, &b"hi\n".to_vec()), Some(vec![3, b'h', b'i', b'\n']));
    assert_eq!(encode_frame(true, &b"hi\n".to_vec()), Some(vec![0x83, b'h', b'i', b'\n']));
    assert_eq!(encode_frame(false, &vec![]), None);
    assert_eq!(encode_frame(true, &vec![]), None);
    assert_eq!(encode_frame(false, &vec![7; 128]), None);
    let f = encode_frame(true, &vec![7; 127]).unwrap();
    assert_eq!(f[0], 255);
    assert_eq!(f.len(), 128);
    for n in 1..=127usize {
        for side in [false, true] {
            let f = encode_frame(side, &vec![1; n]).unwrap();
            assert_ne!(f[0], 0);
            assert_eq!(f[0], ((side as u8) << 7) | n as u8);
        }
    }
}

#[test]
fn pump_defers_a_single_byte_until_more_comes_or_the_stream_ends() {
    let mut p = Pump::new(false);
    assert_eq!(p.room(), 120);
    assert_eq!(p.feed(&vec![b'a'], false), Vec::<u8>::new());
    assert_eq!(p.held, vec![b'a']);
    assert_eq!(p.room(), 119);
    assert_eq!(p.feed(&vec![], false), Vec::<u8>::new());
    assert_eq!(p.feed(&vec![b'b'], false), vec![2, b'a', b'b']);
    assert!(p.held.is_empty());
    assert_eq!(p.feed(&vec![b'c'], true), vec![1, b'c']);
    assert_eq!(p.feed(&vec![], true), Vec::<u8>::new());
    let mut e = Pump::new(true);
    assert_eq!(e.feed(&vec![b'x', b'y'], false), vec![0x82, b'x', b'y']);
}

#[test]
fn pump_cuts_long_input_into_frames_of_120() {
    let mut p = Pump::new(true);
    let data: Vec<u8> = (0..=255u8).cycle().take(241).collect();
    let out = p.feed(&data, false);
    assert_eq!(out.len(), 2 * 121);
    assert_eq!(out[0], 128 + 120);
    assert_eq!(out[121], 128 + 120);
    assert_eq!(&out[1..121], &data[..120]);
    assert_eq!(&out[122..], &data[120..240]);
    assert_eq!(p.held, vec![data[240]]);
    let rest = p.feed(&vec![], true);
    assert_eq!(rest, vec![128 + 1, data[240]]);
}

#[test]
fn what_is_forwarded_is_read_back() {
    let s: Vec<u8> = (0..1000u32).map(|i| (i * 7 % 251) as u8).collect();
    let t: Vec<u8> = (0..333u32).map(|i| (i * 13 % 256) as u8).collect();
    let mut out = Pump::new(false);
    let mut err = Pump::new(true);
    let mut stream = Vec::new();
    let (mut i, mut j, mut step) = (0, 0, 1);
    while i < s.len() || j < t.len() {
        let n = (step * 37 % 130).min(s.len() - i);
        stream.extend(out.feed(&s[i..i + n].to_vec(), false));
        i += n;
        let m = (step * 11 % 5).min(t.len() - j);
        stream.extend(err.feed(&t[j..j + m].to_vec(), false));
        j += m;
        step += 1;
    }
    stream.extend(out.feed(&vec![], true));
    stream.extend(err.feed(&vec![], true));
    assert!(out.held.is_empty() && err.held.is_empty());
    assert_eq!(read_stream(&stream), None);
    stream.push(0);
    assert_eq!(read_stream(&stream), Some((s, t)));
}

#[test]
fn reader_takes_any_length_and_stops_at_the_end_byte() {
    assert_eq!(read_stream(&vec![0]), Some((vec![], vec![])));
    assert_eq!(read_stream(&vec![]), None);
    assert_eq!(read_stream(&vec![1, 9, 0x81, 8, 0x80, 0, 5, 5]), Some((vec![9], vec![8])));
    assert_eq!(read_stream(&vec![2, 9, 0]), None);
    assert_eq!(read_stream(&vec![2, 9]), None);
    assert_eq!(read_stream(&vec![1, 0, 0]), Some((vec![0], vec![])));
}

#[test]
fn forwarding_ends_when_all_is_quiet() {
    assert!(forwarding_done(true, true, true, false));
    assert!(!forwarding_done(true, true, true, true));
    assert!(!forwarding_done(false, true, true, false));
    assert!(!forwarding_done(true, false, true, false));
    assert!(!forwarding_done(true, true, false, false));
}

#[test]
fn a_stream_ends_when_its_reader_is_done_and_nothing_waits() {
    let mut p = Pump::new(false);
    // the reader goes on: a single byte waits
    assert_eq!(p.drain(&vec![7], false), (vec![], false));
    assert_eq!(p.room(), 119);
    // the reader is done, but the reading filled the room: more may wait
    let full = vec![1u8; 119];
    let (frames, ended) = p.drain(&full, true);
    assert!(!ended);
    assert_eq!(frames.len(), 121);
    assert_eq!(frames[0], 120);
    assert_eq!(frames[1], 7);
    // the reader is done and less than the room was there: the end
    let (frames, ended) = p.drain(&vec![9], true);
    assert!(ended);
    assert_eq!(frames, vec![1, 9]);
    let (frames, ended) = p.drain(&vec![], true);
    assert!(ended);
    assert!(frames.is_empty());
    // an empty reading of a reader that goes on ends nothing
    assert_eq!(p.drain(&vec![], false), (vec![], false));
}

#[test]
fn both_streams_are_forwarded_and_read_back() {
    let s: Vec<u8> = (0..700u32).map(|i| (i * 5 % 253) as u8).collect();
    let t: Vec<u8> = (0..241u32).map(|i| (i * 3 % 256) as u8).collect();
    let mut f = Forwarding::new();
    assert!(f.settled());
    let mut stream = Vec::new();
    let (mut i, mut j) = (0, 0);
    let (mut out_ended, mut err_ended) = (false, false);
    while !(out_ended && err_ended) {
        let n = f.room(false).min(s.len() - i);
        let (frames, ended) = f.drain(false, &s[i..i + n].to_vec(), i + n == s.len());
        stream.extend(frames);
        i += n;
        out_ended = ended;
        let m = f.room(true).min(1).min(t.len() - j);
        let (frames, ended) = f.drain(true, &t[j..j + m].to_vec(), j + m == t.len());
        stream.extend(frames);
        j += m;
        err_ended = ended;
    }
    assert!(f.settled());
    assert_eq!(end_of_stream(), vec![0]);
    stream.extend(end_of_stream());
    assert_eq!(read_stream(&stream), Some((s, t)));
}

#[test]
fn a_single_byte_is_held_back_by_the_side_it_came_from() {
    let mut f = Forwarding::new();
    assert_eq!(f.drain(true, &vec![5], false), (vec![], false));
    assert!(!f.settled());
    assert_eq!(f.room(true), 119);
    assert_eq!(f.room(false), 120);
    assert_eq!(f.drain(false, &vec![1, 2], false), (vec![2, 1, 2], false));
    assert!(!f.settled());
    assert_eq!(f.drain(true, &vec![], true), (vec![129, 5], true));
    assert!(f.settled());
}
