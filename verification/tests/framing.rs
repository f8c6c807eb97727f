use market_engine::framing::{read_prefix, write_prefix, RxBuffer};

enum TxMode {
    Full,
    Chunked(usize),
}

impl TxMode {
    fn split(&self, v: Vec<u8>) -> Vec<Vec<u8>> {
        match self {
            Self::Full => vec![v],
            Self::Chunked(s) => v[..].chunks(*s).map(|c| c.to_vec()).collect(),
        }
    }
}

#[test]
fn rx_buffer() {
    for tx in vec![TxMode::Full, TxMode::Chunked(1), TxMode::Chunked(2)] {
        for sz in [1, 2, 3, 5, 7, 12, 64] {
            let src = (0..=255u8)
                .into_iter()
                .map(|e| Vec::from_iter(std::iter::repeat(e).take(sz)))
                .collect::<Vec<_>>();

            let mut buf = RxBuffer::default();
            let mut dst = Vec::with_capacity(src.len());

            src.iter().cloned().for_each(|mut v| {
                write_prefix(&mut v);
                for received in tx.split(v) {
                    buf.process(&received);
                    while let Some(item) = buf.next_frame() {
                        dst.push(item);
                    }
                }
            });

            assert_eq!(src, dst);
        }
    }
}

#[test]
fn read_prefix_short_input() {
    assert_eq!(read_prefix(&[]), None);
    assert_eq!(read_prefix(&[7]), None);
}

#[test]
fn read_prefix_little_endian() {
    assert_eq!(read_prefix(&[3, 0]), Some(3));
    assert_eq!(read_prefix(&[0, 1]), Some(256));
    assert_eq!(read_prefix(&[255, 255, 9]), Some(65535));
}

#[test]
fn write_prefix_prepends_length() {
    let mut v = vec![10u8, 20, 30];
    write_prefix(&mut v);
    assert_eq!(v, vec![3u8, 0, 10, 20, 30]);

    let mut big = vec![0u8; 300];
    write_prefix(&mut big);
    assert_eq!(big[0], 44);
    assert_eq!(big[1], 1);
    assert_eq!(big.len(), 302);
}

#[test]
fn empty_frame_round_trip() {
    let mut v: Vec<u8> = Vec::new();
    write_prefix(&mut v);
    let mut buf = RxBuffer::default();
    buf.process(&v);
    assert_eq!(buf.next_frame(), Some(Vec::new()));
    assert_eq!(buf.next_frame(), None);
}

#[test]
fn partial_frame_waits_for_rest() {
    let mut v = vec![1u8, 2, 3, 4];
    write_prefix(&mut v);
    let mut buf = RxBuffer::default();
    buf.process(&v[..3]);
    assert_eq!(buf.next_frame(), None);
    buf.process(&v[3..]);
    assert_eq!(buf.next_frame(), Some(vec![1u8, 2, 3, 4]));
}
