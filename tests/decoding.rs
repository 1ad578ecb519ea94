use std::cell::Cell;
use std::rc::Rc;

use utf8_stream::{is_utf8_char_boundary, ByteSource, CharBuffer, CharIndicesBuffer};

/// Hands out its bytes one per request, then reports the end of input.
/// Counts the requests it has answered.
#[derive(Debug)]
struct Bytes {
    data: Vec<u8>,
    pos: usize,
    reads: Rc<Cell<usize>>,
}

impl Bytes {
    fn new(data: &[u8]) -> Bytes {
        Bytes { data: data.to_vec(), pos: 0, reads: Rc::new(Cell::new(0)) }
    }
}

impl ByteSource for Bytes {
    fn read(&mut self, slot: &mut u8) -> Result<usize, ()> {
        self.reads.set(self.reads.get() + 1);
        if self.pos < self.data.len() {
            *slot = self.data[self.pos];
            self.pos += 1;
            Ok(1)
        } else {
            Ok(0)
        }
    }
}

/// Hands out its bytes, then fails every read.
struct Failing {
    data: Vec<u8>,
    pos: usize,
}

impl ByteSource for Failing {
    fn read(&mut self, slot: &mut u8) -> Result<usize, ()> {
        if self.pos < self.data.len() {
            *slot = self.data[self.pos];
            self.pos += 1;
            Ok(1)
        } else {
            Err(())
        }
    }
}

/// Claims to have supplied two bytes for a one-byte request.
struct TooMany;

impl ByteSource for TooMany {
    fn read(&mut self, slot: &mut u8) -> Result<usize, ()> {
        *slot = b'a';
        Ok(2)
    }
}

fn decode_indexed(data: &[u8], limit: usize) -> Vec<Option<Result<(usize, char), usize>>> {
    let mut d = CharIndicesBuffer::from_reader(Bytes::new(data));
    let mut out = Vec::new();
    for _ in 0..limit {
        let u = d.next();
        out.push(u);
        if u.is_none() {
            break;
        }
    }
    out
}

#[test]
fn boundary_classifier_matches_every_byte() {
    for b in 0u16..=255 {
        let b = b as u8;
        assert_eq!(is_utf8_char_boundary(b), b < 0x80 || b >= 0xC0, "byte {:#x}", b);
    }
}

#[test]
fn ascii_letter_then_end() {
    let mut d = CharIndicesBuffer::from_reader(Bytes::new(&[0x41]));
    assert_eq!(d.next(), Some(Ok((0, 'A'))));
    assert_eq!(d.next(), None);
    assert_eq!(d.next(), None);
}

#[test]
fn euro_sign_read_byte_by_byte() {
    let src = Bytes::new(&[0xE2, 0x82, 0xAC]);
    let reads = src.reads.clone();
    let mut d = CharIndicesBuffer::from_reader(src);
    assert_eq!(d.next(), Some(Ok((0, '€'))));
    // Three bytes and the end of input were asked for before the scalar came out.
    assert_eq!(reads.get(), 4);
    assert_eq!(d.next(), None);
    assert_eq!(reads.get(), 4);
}

#[test]
fn lone_continuation_byte_fails_at_zero() {
    let mut d = CharIndicesBuffer::from_reader(Bytes::new(&[0x80]));
    assert_eq!(d.next(), Some(Err(0)));
}

#[test]
fn truncated_lead_after_letter() {
    let mut d = CharIndicesBuffer::from_reader(Bytes::new(&[0x41, 0xC2]));
    assert_eq!(d.next(), Some(Ok((0, 'A'))));
    assert_eq!(d.next(), Some(Err(1)));
}

#[test]
fn lead_followed_by_non_continuation() {
    let mut d = CharIndicesBuffer::from_reader(Bytes::new(&[0xC2, 0x41]));
    assert_eq!(d.next(), Some(Err(0)));
}

#[test]
fn failure_is_sticky_and_stops_reading() {
    let src = Bytes::new(&[0x41, 0x42, 0x80, 0x43, 0x44, 0x45, 0x46]);
    let reads = src.reads.clone();
    let mut d = CharIndicesBuffer::from_reader(src);
    assert_eq!(d.next(), Some(Ok((0, 'A'))));
    assert_eq!(d.next(), Some(Err(1)));
    let seen = reads.get();
    for _ in 0..5 {
        assert_eq!(d.next(), Some(Err(1)));
    }
    assert_eq!(reads.get(), seen);
    match d.into_reader_state() {
        Err((off, _, len, _)) => {
            assert_eq!(off, 1);
            assert!(len <= 4);
        }
        Ok(_) => panic!("a failed decoder must extract as Err"),
    }
}

#[test]
fn round_trip_of_mixed_widths() {
    let text = "aé€😀z\u{7F}\u{80}\u{7FF}\u{800}\u{FFFF}\u{10000}\u{10FFFF}";
    let expected: Vec<_> = text.char_indices().map(|(i, c)| Some(Ok((i, c)))).collect();
    let mut got = decode_indexed(text.as_bytes(), 100);
    assert_eq!(got.pop(), Some(None));
    assert_eq!(got, expected);
}

#[test]
fn resuming_at_every_split_point_matches_one_pass() {
    let text = "x€yé😀q";
    let whole = decode_indexed(text.as_bytes(), 100);
    for k in 0..whole.len() {
        let mut d = CharIndicesBuffer::from_reader(Bytes::new(text.as_bytes()));
        let mut out = Vec::new();
        for _ in 0..k {
            out.push(d.next());
        }
        let (off, buf, len, src) = d.into_reader_state().expect("not failed");
        let mut d = CharIndicesBuffer::from_reader_state(off, buf, len, src);
        while out.len() < whole.len() {
            out.push(d.next());
        }
        assert_eq!(out, whole, "split after {} units", k);
    }
}

#[test]
fn resuming_scalar_only_decoder() {
    let text = "€😀";
    let mut d = CharBuffer::from_reader(Bytes::new(text.as_bytes()));
    assert_eq!(d.next(), Some(Ok('€')));
    let (buf, len, src) = d.into_inner().expect("not failed");
    assert!(len <= 4);
    let mut d = CharBuffer::from_reader_state(buf, len, src);
    assert_eq!(d.next(), Some(Ok('😀')));
    assert_eq!(d.next(), None);
}

#[test]
fn resume_with_pending_bytes_and_offset() {
    let mut d = CharIndicesBuffer::from_reader_state(5, [0xE2, 0x82, 0, 0], 2, Bytes::new(&[0xAC]));
    assert_eq!(d.next(), Some(Ok((5, '€'))));
    assert_eq!(d.next(), None);
}

#[test]
fn pending_bytes_stay_within_four() {
    let data: Vec<u8> = "ab€😀é".repeat(500).into_bytes();
    let src = Bytes::new(&data);
    let reads = src.reads.clone();
    let mut d = CharIndicesBuffer::from_reader(src);
    let mut resolved = 0;
    loop {
        match d.next() {
            Some(Ok((off, c))) => {
                assert_eq!(off, resolved);
                resolved += c.len_utf8();
                let read = reads.get().min(data.len());
                assert!(read - resolved <= 4);
            }
            Some(Err(o)) => panic!("unexpected failure at {}", o),
            None => break,
        }
    }
    assert_eq!(resolved, data.len());
}

#[test]
fn empty_input_ends_at_once() {
    let mut d = CharBuffer::from_reader(Bytes::new(&[]));
    assert_eq!(d.next(), None);
    assert!(d.into_reader_state().is_ok());
}

#[test]
fn malformed_forms_are_rejected() {
    // overlong, surrogate, past the last scalar, stray lead bytes
    for bad in [&[0xC0u8, 0x80][..], &[0xED, 0xA0, 0x80], &[0xF4, 0x90, 0x80, 0x80], &[0xF8, 0x80], &[0xFF]] {
        assert_eq!(decode_indexed(bad, 1), vec![Some(Err(0))], "{:x?}", bad);
    }
}

#[test]
fn four_byte_scalar_decodes() {
    assert_eq!(decode_indexed(&[0xF0, 0x9F, 0x98, 0x80], 3), vec![Some(Ok((0, '😀'))), None]);
}

#[test]
fn read_error_fails() {
    let mut d = CharIndicesBuffer::from_reader(Failing { data: vec![0x41], pos: 0 });
    assert_eq!(d.next(), Some(Err(0)));
    assert_eq!(d.next(), Some(Err(0)));
    let mut d = CharBuffer::from_reader(Failing { data: vec![], pos: 0 });
    assert_eq!(d.next(), Some(Err(())));
    assert!(d.into_inner().is_err());
}

#[test]
fn oversupplying_source_fails() {
    let mut d = CharBuffer::from_reader(TooMany);
    assert_eq!(d.next(), Some(Err(())));
    assert_eq!(d.next(), Some(Err(())));
}

#[test]
fn offset_that_would_overflow_fails() {
    let mut d = CharIndicesBuffer::from_reader_state(usize::MAX - 1, [0; 4], 0, Bytes::new(&[0x41, 0x42]));
    assert_eq!(d.next(), Some(Ok((usize::MAX - 1, 'A'))));
    assert_eq!(d.next(), Some(Err(usize::MAX)));
}

#[test]
fn extraction_keeps_unresolved_bytes() {
    let mut d = CharIndicesBuffer::from_reader(Bytes::new(&[0x41, 0xE2, 0x82, 0xAC, 0x42]));
    assert_eq!(d.next(), Some(Ok((0, 'A'))));
    let (off, buf, len, _) = d.into_inner().expect("not failed");
    assert_eq!(off, 1);
    assert_eq!(len, 3);
    assert_eq!(&buf[..3], &[0xE2, 0x82, 0xAC]);
}
